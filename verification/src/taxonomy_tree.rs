//! The tag forest of `file_tags`: every tag hangs under its first parent code
//! when that parent is another known tag; the others are roots. Children and
//! roots are ordered by code; a tag is never its own descendant, so a cycle
//! in the parent codes ends where it would repeat a tag on the current path.
use vstd::prelude::*;
use crate::str_index::{char_views, find_slot, index_keys, is_last_in, keys_at, last_pos, lemma_last_pos_is, lemma_slots_distinct, range_index};
use crate::db::{required, sql, QueryError};
use crate::omw::{string_list_or_empty, string_list_or_empty_spec};
use crate::sqlite::{lemma_entry_none, lemma_log_extends_push, lemma_log_extends_refl, lemma_log_extends_trans, log_extends, Db};
use crate::strlist::clone_strings;
use crate::taxonomy::{table_exists_entry, dictionary_views, display_name, display_name_spec, query_taxonomy_aliases, table_exists, TaxonomyAliasesResponse};
use crate::tag_identity::{seq_lt, strictly_sorted};
use crate::text::{chars_of, starts_with_str, string_of};

verus! {

/// A tag row of `file_tags` with its display name.
pub struct TagRow {
    pub code: String,
    pub name: String,
    pub parent_codes: Vec<String>,
}

/// A node of the tag forest.
pub struct TaxonomyNode {
    pub code: String,
    pub name: String,
    /// The first parent code, if any.
    pub parent_code: Option<String>,
    pub parent_codes: Vec<String>,
    /// `builtin`, `omw`, `_ext` or `user`, by code prefix.
    pub source: String,
    pub sort_order: i64,
    pub children: Vec<TaxonomyNode>,
}

/// The codes of the rows.
pub open spec fn row_codes(rows: Seq<TagRow>) -> Seq<Seq<char>> {
    rows.map_values(|r: TagRow| r.code@)
}

/// The row that defines code `k`: its last row.
pub open spec fn row_of(rows: Seq<TagRow>, k: Seq<char>) -> TagRow {
    rows[last_pos(row_codes(rows), k)->Some_0]
}

/// The first parent code of `k`.
pub open spec fn parent_code_of(rows: Seq<TagRow>, k: Seq<char>) -> Option<Seq<char>> {
    let pc = row_of(rows, k).parent_codes.deep_view();
    if pc.len() > 0 {
        Some(pc[0])
    } else {
        None
    }
}

/// The parent under which `k` hangs: its first parent code when that is
/// another known tag.
pub open spec fn tree_parent(rows: Seq<TagRow>, k: Seq<char>) -> Option<Seq<char>> {
    match parent_code_of(rows, k) {
        Some(p) => if row_codes(rows).contains(p) && p != k {
            Some(p)
        } else {
            None
        },
        None => None,
    }
}

/// The source of a tag by code prefix.
pub open spec fn tag_source(code: Seq<char>) -> Seq<char> {
    if "builtin."@.is_prefix_of(code) {
        "builtin"@
    } else if "omw."@.is_prefix_of(code) {
        "omw"@
    } else if "_ext."@.is_prefix_of(code) {
        "_ext"@
    } else {
        "user"@
    }
}

/// The codes of a list of nodes.
pub open spec fn node_codes(v: Seq<TaxonomyNode>) -> Seq<Seq<char>> {
    v.map_values(|n: TaxonomyNode| n.code@)
}

/// `n` is the subtree of its code below the tags of `path`: its fields come
/// from the code's row, and its children are the subtrees of the tags that
/// hang under it and are not on the path, ordered by code.
pub open spec fn node_ok(rows: Seq<TagRow>, n: TaxonomyNode, path: Set<Seq<char>>) -> bool
    decreases n,
{
    let k = n.code@;
    &&& row_codes(rows).contains(k)
    &&& !path.contains(k)
    &&& n.name@ == row_of(rows, k).name@
    &&& n.parent_codes.deep_view() == row_of(rows, k).parent_codes.deep_view()
    &&& n.parent_code.deep_view() == parent_code_of(rows, k)
    &&& n.source@ == tag_source(k)
    &&& n.sort_order == 0
    &&& strictly_sorted(node_codes(n.children@))
    &&& forall|c: Seq<char>|
        #[trigger] node_codes(n.children@).contains(c) <==> (row_codes(rows).contains(c) && tree_parent(
            rows,
            c,
        ) == Some(k) && !path.insert(k).contains(c))
    &&& forall|j: int| 0 <= j < n.children@.len() ==> #[trigger] node_ok(rows, n.children@[j], path.insert(k))
}

/// The forest of the rows: the subtree of `root` alone when it names a tag
/// (nothing when it does not), else the subtrees of all tags without a tree
/// parent, ordered by code.
pub open spec fn forest_ok(rows: Seq<TagRow>, root: Option<Seq<char>>, r: Seq<TaxonomyNode>) -> bool {
    match root {
        Some(f) => if row_codes(rows).contains(f) {
            r.len() == 1 && r[0].code@ == f && node_ok(rows, r[0], Set::empty())
        } else {
            r.len() == 0
        },
        None => {
            &&& strictly_sorted(node_codes(r))
            &&& forall|c: Seq<char>|
                #[trigger] node_codes(r).contains(c) <==> (row_codes(rows).contains(c) && tree_parent(rows, c)
                    is None)
            &&& forall|j: int| 0 <= j < r.len() ==> #[trigger] node_ok(rows, r[j], Set::empty())
        },
    }
}

/// The codes on the path: those of the visited slots.
pub open spec fn path_of(ko: Seq<Seq<char>>, visited: Seq<bool>) -> Set<Seq<char>> {
    Set::new(|c: Seq<char>| exists|y: int| 0 <= y < ko.len() && visited[y] && ko[y] == c)
}

/// How many slots are not visited.
pub open spec fn count_false(v: Seq<bool>) -> nat
    decreases v.len(),
{
    if v.len() == 0 {
        0
    } else {
        count_false(v.drop_last()) + if v.last() {
            0nat
        } else {
            1nat
        }
    }
}

proof fn lemma_count_false_set(v: Seq<bool>, x: int)
    requires
        0 <= x < v.len(),
        !v[x],
    ensures
        count_false(v.update(x, true)) + 1 == count_false(v),
    decreases v.len(),
{
    let w = v.update(x, true);
    if x == v.len() - 1 {
        assert(w.drop_last() =~= v.drop_last());
    } else {
        assert(w.drop_last() =~= v.drop_last().update(x, true));
        lemma_count_false_set(v.drop_last(), x);
    }
}

/// The data the forest is built from, by slot (tags in code order).
struct Slots {
    keys: Vec<Vec<char>>,
    order: Vec<usize>,
    /// The slots that hang under each slot, increasing.
    kids: Vec<Vec<usize>>,
    /// The slots without a tree parent, increasing.
    roots: Vec<usize>,
}

impl Slots {
    spec fn codes(&self) -> Seq<Seq<char>> {
        keys_at(char_views(self.keys@), self.order@)
    }

    /// The slots are those of the rows, and the children and roots lists
    /// follow the tree parents.
    spec fn wf(&self, rows: Seq<TagRow>) -> bool {
        &&& char_views(self.keys@) == row_codes(rows)
        &&& range_index(char_views(self.keys@), self.order@, 0, self.keys@.len() as int)
        &&& self.kids@.len() == self.order@.len()
        &&& self.order@.len() <= usize::MAX
        &&& forall|x: int, j: int|
            0 <= x < self.kids@.len() && 0 <= j < self.kids@[x]@.len() ==> #[trigger] self.kids@[x]@[j]
                < self.order@.len()
        &&& forall|x: int, i: int, j: int|
            0 <= x < self.kids@.len() && 0 <= i < j < self.kids@[x]@.len() ==> #[trigger] self.kids@[x]@[i]
                < #[trigger] self.kids@[x]@[j]
        &&& forall|x: int, y: int|
            0 <= x < self.order@.len() && 0 <= y < self.order@.len() ==> (self.kids@[x]@.contains(y as usize)
                <==> tree_parent(rows, #[trigger] self.codes()[y]) == Some(#[trigger] self.codes()[x]))
        &&& forall|i: int| 0 <= i < self.roots@.len() ==> #[trigger] self.roots@[i] < self.order@.len()
        &&& forall|i: int, j: int| 0 <= i < j < self.roots@.len() ==> #[trigger] self.roots@[i] < #[trigger] self.roots@[j]
        &&& forall|y: int|
            0 <= y < self.order@.len() ==> (self.roots@.contains(y as usize) <==> tree_parent(rows, #[trigger] self.codes()[y]) is None)
    }
}

/// A code is a code of the rows exactly when it is a code of a slot.
proof fn lemma_codes_cover(kv: Seq<Seq<char>>, order: Seq<usize>, k: Seq<char>)
    requires
        range_index(kv, order, 0, kv.len() as int),
    ensures
        kv.contains(k) <==> keys_at(kv, order).contains(k),
{
    let ko = keys_at(kv, order);
    if kv.contains(k) {
        let q = choose|q: int| 0 <= q < kv.len() && kv[q] == k;
        assert(ko.contains(kv[q]));
    }
    if ko.contains(k) {
        let x = choose|x: int| 0 <= x < ko.len() && ko[x] == k;
        assert(kv[order[x] as int] == k);
    }
}

/// The row of a slot's code is the slot's row.
proof fn lemma_slot_row(rows: Seq<TagRow>, kv: Seq<Seq<char>>, order: Seq<usize>, y: int)
    requires
        kv == row_codes(rows),
        range_index(kv, order, 0, kv.len() as int),
        0 <= y < order.len(),
    ensures
        last_pos(kv, keys_at(kv, order)[y]) == Some(order[y] as int),
        row_of(rows, keys_at(kv, order)[y]) == rows[order[y] as int],
{
    let p = order[y] as int;
    assert(is_last_in(kv, p, kv.len() as int));
    lemma_last_pos_is(kv, kv[p], p);
}

fn build_slots(rows: &Vec<TagRow>) -> (s: Slots)
    ensures
        s.wf(rows@),
{
    let ghost rv = rows@;
    let mut keys: Vec<Vec<char>> = Vec::new();
    let mut i: usize = 0;
    while i < rows.len()
        invariant
            rv == rows@,
            i <= rows.len(),
            char_views(keys@) == row_codes(rv).take(i as int),
        decreases rows.len() - i,
    {
        let ghost old = char_views(keys@);
        keys.push(chars_of(rows[i].code.as_str()));
        proof {
            assert(char_views(keys@) =~= old.push(rv[i as int].code@));
            assert(row_codes(rv).take(i + 1) =~= row_codes(rv).take(i as int).push(rv[i as int].code@));
        }
        i = i + 1;
    }
    assert(row_codes(rv).take(rows.len() as int) =~= row_codes(rv));
    let ghost kv = char_views(keys@);
    let order = index_keys(&keys);
    let ghost ko = keys_at(kv, order@);
    let mut kids: Vec<Vec<usize>> = Vec::new();
    let mut x: usize = 0;
    while x < order.len()
        invariant
            x <= order.len(),
            kids@.len() == x,
            forall|z: int| 0 <= z < x ==> (#[trigger] kids@[z])@.len() == 0,
        decreases order.len() - x,
    {
        kids.push(Vec::new());
        x = x + 1;
    }
    let mut roots: Vec<usize> = Vec::new();
    let mut y: usize = 0;
    while y < order.len()
        invariant
            rv == rows@,
            kv == char_views(keys@),
            kv == row_codes(rv),
            ko == keys_at(kv, order@),
            range_index(kv, order@, 0, kv.len() as int),
            y <= order.len(),
            kids@.len() == order@.len(),
            forall|z: int, j: int|
                0 <= z < kids@.len() && 0 <= j < kids@[z]@.len() ==> #[trigger] kids@[z]@[j] < y,
            forall|z: int, a: int, b: int|
                0 <= z < kids@.len() && 0 <= a < b < kids@[z]@.len() ==> #[trigger] kids@[z]@[a] < #[trigger] kids@[z]@[b],
            forall|z: int, w: int|
                0 <= z < order@.len() && 0 <= w < y ==> (kids@[z]@.contains(w as usize) <==> tree_parent(
                    rv,
                    #[trigger] ko[w],
                ) == Some(#[trigger] ko[z])),
            forall|a: int| 0 <= a < roots@.len() ==> #[trigger] roots@[a] < y,
            forall|a: int, b: int| 0 <= a < b < roots@.len() ==> #[trigger] roots@[a] < #[trigger] roots@[b],
            forall|w: int| 0 <= w < y ==> (roots@.contains(w as usize) <==> tree_parent(rv, #[trigger] ko[w]) is None),
        decreases order.len() - y,
    {
        let p = order[y];
        proof {
            lemma_slot_row(rv, kv, order@, y as int);
        }
        let pcs = &rows[p].parent_codes;
        let tp: Option<usize> = if pcs.len() > 0 {
            let pc = chars_of(pcs[0].as_str());
            proof {
                lemma_codes_cover(kv, order@, pc@);
                assert(pcs.deep_view()[0] == pc@);
            }
            match find_slot(&keys, &order, &pc) {
                Some(z) => if z != y {
                    proof {
                        lemma_slots_distinct(kv, order@, z as int, y as int);
                    }
                    Some(z)
                } else {
                    None
                },
                None => None,
            }
        } else {
            None
        };
        proof {
            match tp {
                Some(z) => {
                    assert(tree_parent(rv, ko[y as int]) == Some(ko[z as int]));
                },
                None => {
                    assert(tree_parent(rv, ko[y as int]) is None);
                },
            }
        }
        let ghost old_kids = kids@;
        let ghost old_roots = roots@;
        match tp {
            Some(z) => {
                let mut l = kids[z].clone();
                let ghost ol = l@;
                l.push(y);
                kids.set(z, l);
                proof {
                    assert forall|z2: int, w: int|
                        0 <= z2 < order@.len() && 0 <= w < y + 1 implies (kids@[z2]@.contains(w as usize)
                        <==> tree_parent(rv, #[trigger] ko[w]) == Some(#[trigger] ko[z2])) by {
                        if z2 == z {
                            assert(kids@[z2]@ =~= old_kids[z2]@.push(y));
                            if w == y {
                                assert(kids@[z2]@[kids@[z2]@.len() - 1] == y);
                            } else {
                                if kids@[z2]@.contains(w as usize) {
                                    let j = choose|j: int| 0 <= j < kids@[z2]@.len() && kids@[z2]@[j] == w as usize;
                                    if j < old_kids[z2]@.len() {
                                        assert(old_kids[z2]@[j] == w as usize);
                                    }
                                }
                                if old_kids[z2]@.contains(w as usize) {
                                    let j = choose|j: int| 0 <= j < old_kids[z2]@.len() && old_kids[z2]@[j] == w as usize;
                                    assert(kids@[z2]@[j] == w as usize);
                                }
                            }
                        } else {
                            assert(kids@[z2] == old_kids[z2]);
                            if w == y {
                                lemma_slots_distinct(kv, order@, z as int, z2);
                                if old_kids[z2]@.contains(w as usize) {
                                    let j = choose|j: int| 0 <= j < old_kids[z2]@.len() && old_kids[z2]@[j] == w as usize;
                                }
                            }
                        }
                    }
                    assert forall|z2: int, a: int, b: int|
                        0 <= z2 < kids@.len() && 0 <= a < b < kids@[z2]@.len() implies #[trigger] kids@[z2]@[a] < #[trigger] kids@[z2]@[b] by {
                        if z2 == z {
                            assert(kids@[z2]@ =~= old_kids[z2]@.push(y));
                        } else {
                            assert(kids@[z2] == old_kids[z2]);
                        }
                    }
                    assert forall|z2: int, j: int|
                        0 <= z2 < kids@.len() && 0 <= j < kids@[z2]@.len() implies #[trigger] kids@[z2]@[j] < y + 1 by {
                        if z2 == z {
                            assert(kids@[z2]@ =~= old_kids[z2]@.push(y));
                        } else {
                            assert(kids@[z2] == old_kids[z2]);
                        }
                    }
                    assert forall|w: int| 0 <= w < y + 1 implies (roots@.contains(w as usize) <==> tree_parent(rv, #[trigger] ko[w]) is None) by {
                        if w == y && roots@.contains(w as usize) {
                            let a = choose|a: int| 0 <= a < roots@.len() && roots@[a] == w as usize;
                        }
                    }
                }
            },
            None => {
                roots.push(y);
                proof {
                    assert(roots@ =~= old_roots.push(y));
                    assert forall|w: int| 0 <= w < y + 1 implies (roots@.contains(w as usize) <==> tree_parent(rv, #[trigger] ko[w]) is None) by {
                        if w == y {
                            assert(roots@[roots@.len() - 1] == y);
                        } else {
                            if roots@.contains(w as usize) {
                                let a = choose|a: int| 0 <= a < roots@.len() && roots@[a] == w as usize;
                                if a < old_roots.len() {
                                    assert(old_roots[a] == w as usize);
                                }
                            }
                            if old_roots.contains(w as usize) {
                                let a = choose|a: int| 0 <= a < old_roots.len() && old_roots[a] == w as usize;
                                assert(roots@[a] == w as usize);
                            }
                        }
                    }
                    assert forall|z2: int, w: int|
                        0 <= z2 < order@.len() && 0 <= w < y + 1 implies (kids@[z2]@.contains(w as usize)
                        <==> tree_parent(rv, #[trigger] ko[w]) == Some(#[trigger] ko[z2])) by {
                        if w == y && kids@[z2]@.contains(w as usize) {
                            let j = choose|j: int| 0 <= j < kids@[z2]@.len() && kids@[z2]@[j] == w as usize;
                        }
                    }
                }
            },
        }
        y = y + 1;
    }
    Slots { keys, order, kids, roots }
}

fn tag_source_exec(code: &Vec<char>) -> (r: String)
    ensures
        r@ == tag_source(code@),
{
    if starts_with_str(code, "builtin.") {
        "builtin".to_owned()
    } else if starts_with_str(code, "omw.") {
        "omw".to_owned()
    } else if starts_with_str(code, "_ext.") {
        "_ext".to_owned()
    } else {
        "user".to_owned()
    }
}

/// A slot's code is on the path exactly when the slot is visited.
proof fn lemma_on_path(kv: Seq<Seq<char>>, order: Seq<usize>, visited: Seq<bool>, y: int)
    requires
        strictly_sorted(keys_at(kv, order)),
        visited.len() == order.len(),
        0 <= y < order.len(),
    ensures
        path_of(keys_at(kv, order), visited).contains(keys_at(kv, order)[y]) <==> visited[y],
{
    let ko = keys_at(kv, order);
    if path_of(ko, visited).contains(ko[y]) {
        let w = choose|w: int| 0 <= w < ko.len() && visited[w] && ko[w] == ko[y];
        if w != y {
            lemma_slots_distinct(kv, order, w, y);
        }
    }
}


proof fn lemma_path_insert(ko: Seq<Seq<char>>, v0: Seq<bool>, x: int)
    requires
        0 <= x < ko.len(),
        v0.len() == ko.len(),
    ensures
        path_of(ko, v0).insert(ko[x]) == path_of(ko, v0.update(x, true)),
{
    let v1 = v0.update(x, true);
    let path = path_of(ko, v0);
    assert forall|c: Seq<char>| path.insert(ko[x]).contains(c) <==> path_of(ko, v1).contains(c) by {
        if path_of(ko, v1).contains(c) {
            let w = choose|w: int| 0 <= w < ko.len() && v1[w] && ko[w] == c;
            if w != x {
                assert(v0[w]);
            }
        }
        if path.contains(c) {
            let w = choose|w: int| 0 <= w < ko.len() && v0[w] && ko[w] == c;
            assert(v1[w]);
        }
        if c == ko[x] {
            assert(v1[x]);
        }
    }
    assert(path.insert(ko[x]) =~= path_of(ko, v1));
}

proof fn lemma_children_exact(
    rv: Seq<TagRow>,
    s: Slots,
    x: int,
    v1: Seq<bool>,
    used: Seq<int>,
    children: Seq<TaxonomyNode>,
)
    requires
        s.wf(rv),
        0 <= x < s.order@.len(),
        v1.len() == s.order@.len(),
        v1[x],
        used.len() == children.len(),
        forall|a: int| 0 <= a < used.len() ==> 0 <= #[trigger] used[a] < s.kids@[x]@.len(),
        forall|a: int, b: int| 0 <= a < b < used.len() ==> #[trigger] used[a] < #[trigger] used[b],
        forall|a: int| 0 <= a < used.len() ==> (#[trigger] children[a]).code@ == s.codes()[s.kids@[x]@[used[a]] as int],
        forall|a: int| 0 <= a < used.len() ==> !v1[s.kids@[x]@[#[trigger] used[a]] as int],
        forall|jj: int|
            0 <= jj < s.kids@[x]@.len() && !v1[s.kids@[x]@[jj] as int] ==> exists|a: int|
                0 <= a < used.len() && #[trigger] used[a] == jj,
    ensures
        strictly_sorted(node_codes(children)),
        forall|c: Seq<char>|
            #[trigger] node_codes(children).contains(c) <==> (row_codes(rv).contains(c) && tree_parent(rv, c)
                == Some(s.codes()[x]) && !path_of(s.codes(), v1).contains(c)),
{
    let ko = s.codes();
    let kv = char_views(s.keys@);
    let kl = s.kids@[x]@;
    let nc = node_codes(children);
    assert forall|a: int, b: int| 0 <= a < b < nc.len() implies seq_lt(#[trigger] nc[a], #[trigger] nc[b]) by {
        assert(used[a] < used[b]);
        assert(kl[used[a]] < kl[used[b]]);
        assert(nc[a] == ko[kl[used[a]] as int]);
        assert(nc[b] == ko[kl[used[b]] as int]);
    }
    assert forall|c: Seq<char>|
        #[trigger] nc.contains(c) <==> (row_codes(rv).contains(c) && tree_parent(rv, c) == Some(ko[x])
            && !path_of(ko, v1).contains(c)) by {
        lemma_codes_cover(kv, s.order@, c);
        if nc.contains(c) {
            let a = choose|a: int| 0 <= a < nc.len() && nc[a] == c;
            let yy = kl[used[a]] as int;
            assert(nc[a] == ko[yy]);
            assert(kl.contains(yy as usize));
            assert(tree_parent(rv, ko[yy]) == Some(ko[x]));
            lemma_on_path(kv, s.order@, v1, yy);
            assert(!v1[yy]);
            assert(ko.contains(ko[yy]));
        }
        if row_codes(rv).contains(c) && tree_parent(rv, c) == Some(ko[x]) && !path_of(ko, v1).contains(c) {
            let yy = choose|yy: int| 0 <= yy < ko.len() && ko[yy] == c;
            assert(kl.contains(yy as usize));
            let jj = choose|jj: int| 0 <= jj < kl.len() && kl[jj] == yy as usize;
            lemma_on_path(kv, s.order@, v1, yy);
            assert(!v1[kl[jj] as int]);
            let a = choose|a: int| 0 <= a < used.len() && used[a] == jj;
            assert(nc[a] == c);
        }
    }
}

fn build_node(rows: &Vec<TagRow>, s: &Slots, x: usize, visited: &mut Vec<bool>) -> (r: Option<TaxonomyNode>)
    requires
        s.wf(rows@),
        x < s.order@.len(),
        old(visited)@.len() == s.order@.len(),
    ensures
        final(visited)@ == old(visited)@,
        old(visited)@[x as int] ==> r is None,
        !old(visited)@[x as int] ==> (r matches Some(n) && n.code@ == s.codes()[x as int] && node_ok(
            rows@,
            n,
            path_of(s.codes(), old(visited)@),
        )),
    decreases count_false(old(visited)@),
{
    if visited[x] {
        return None;
    }
    let ghost rv = rows@;
    let ghost ko = s.codes();
    let ghost kv = char_views(s.keys@);
    let ghost v0 = visited@;
    visited.set(x, true);
    let ghost v1 = visited@;
    proof {
        lemma_count_false_set(v0, x as int);
        assert(v1 == v0.update(x as int, true));
    }
    let kl = &s.kids[x];
    let mut children: Vec<TaxonomyNode> = Vec::new();
    let ghost mut used: Seq<int> = Seq::empty();
    let mut j: usize = 0;
    while j < kl.len()
        invariant
            s.wf(rv),
            rv == rows@,
            ko == s.codes(),
            kv == char_views(s.keys@),
            x < s.order@.len(),
            kl@ == s.kids@[x as int]@,
            visited@ == v1,
            v0 == old(visited)@,
            v1.len() == s.order@.len(),
            count_false(v1) < count_false(v0),
            j <= kl@.len(),
            used.len() == children@.len(),
            forall|a: int| 0 <= a < used.len() ==> 0 <= #[trigger] used[a] < j,
            forall|a: int, b: int| 0 <= a < b < used.len() ==> #[trigger] used[a] < #[trigger] used[b],
            forall|a: int| 0 <= a < used.len() ==> !v1[kl@[#[trigger] used[a]] as int],
            forall|a: int|
                0 <= a < used.len() ==> (#[trigger] children@[a]).code@ == ko[kl@[used[a]] as int] && node_ok(
                    rv,
                    children@[a],
                    path_of(ko, v1),
                ),
            forall|jj: int| 0 <= jj < j && !v1[kl@[jj] as int] ==> exists|a: int| 0 <= a < used.len() && #[trigger] used[a] == jj,
        decreases kl@.len() - j,
    {
        let y = kl[j];
        proof {
            assert(s.kids@[x as int]@[j as int] < s.order@.len());
        }
        let r = build_node(rows, s, y, visited);
        let ghost old_used = used;
        match r {
            Some(c) => {
                let ghost old_children = children@;
                children.push(c);
                proof {
                    used = used.push(j as int);
                    assert forall|a: int|
                        0 <= a < used.len() implies (#[trigger] children@[a]).code@ == ko[kl@[used[a]] as int]
                            && node_ok(rv, children@[a], path_of(ko, v1)) by {
                        if a < old_used.len() {
                            assert(children@[a] == old_children[a]);
                        }
                    }
                }
            },
            None => {},
        }
        proof {
            assert forall|jj: int| 0 <= jj < j + 1 && !v1[kl@[jj] as int] implies exists|a: int| 0 <= a < used.len() && #[trigger] used[a] == jj by {
                if jj < j {
                    let a = choose|a: int| 0 <= a < old_used.len() && old_used[a] == jj;
                    assert(used[a] == jj);
                } else {
                    assert(used[used.len() - 1] == jj);
                }
            }
        }
        j = j + 1;
    }
    visited.set(x, false);
    proof {
        assert(visited@ =~= v0);
    }
    let p = s.order[x];
    proof {
        lemma_slot_row(rv, kv, s.order@, x as int);
    }
    let code_chars = &s.keys[p];
    let parent_code: Option<String> = if rows[p].parent_codes.len() > 0 {
        Some(rows[p].parent_codes[0].clone())
    } else {
        None
    };
    let node = TaxonomyNode {
        code: string_of(code_chars),
        name: rows[p].name.clone(),
        parent_code,
        parent_codes: clone_strings(&rows[p].parent_codes),
        source: tag_source_exec(code_chars),
        sort_order: 0,
        children,
    };
    proof {
        let k = ko[x as int];
        assert(code_chars@ == k);
        let path = path_of(ko, v0);
        lemma_path_insert(ko, v0, x as int);
        lemma_on_path(kv, s.order@, v0, x as int);
        lemma_codes_cover(kv, s.order@, k);
        assert(rv.map_values(|r: TagRow| r.code@) == kv);
        lemma_children_exact(rv, *s, x as int, v1, used, node.children@);
        assert(node.parent_codes.deep_view() == rows@[p as int].parent_codes.deep_view());
        assert(node_ok(rv, node, path));
    }
    Some(node)
}

/// The tag forest of the rows (see `forest_ok`): the subtree of
/// `root_filter` alone, or all trees ordered by their root's code.
pub fn build_forest(rows: &Vec<TagRow>, root_filter: Option<&str>) -> (r: Vec<TaxonomyNode>)
    ensures
        forest_ok(
            rows@,
            match root_filter {
                Some(f) => Some(f@),
                None => None,
            },
            r@,
        ),
{
    let s = build_slots(rows);
    let ghost rv = rows@;
    let ghost ko = s.codes();
    let ghost kv = char_views(s.keys@);
    let mut visited: Vec<bool> = Vec::new();
    let mut i: usize = 0;
    while i < s.order.len()
        invariant
            i <= s.order@.len(),
            visited@.len() == i,
            forall|y: int| 0 <= y < i ==> !visited@[y],
        decreases s.order@.len() - i,
    {
        visited.push(false);
        i = i + 1;
    }
    proof {
        assert(path_of(ko, visited@) =~= Set::<Seq<char>>::empty());
        assert(rv.map_values(|r: TagRow| r.code@) == kv);
    }
    let mut out: Vec<TaxonomyNode> = Vec::new();
    match root_filter {
        Some(f) => {
            let fc = chars_of(f);
            proof {
                lemma_codes_cover(kv, s.order@, f@);
            }
            match find_slot(&s.keys, &s.order, &fc) {
                Some(x) => {
                    let r = build_node(rows, &s, x, &mut visited);
                    match r {
                        Some(n) => out.push(n),
                        None => {},
                    }
                },
                None => {},
            }
        },
        None => {
            let ghost v0 = visited@;
            let ghost mut used: Seq<int> = Seq::empty();
            let mut j: usize = 0;
            while j < s.roots.len()
                invariant
                    s.wf(rv),
                    rv == rows@,
                    ko == s.codes(),
                    kv == char_views(s.keys@),
                    visited@ == v0,
                    v0.len() == s.order@.len(),
                    forall|y: int| 0 <= y < v0.len() ==> !v0[y],
                    path_of(ko, v0) == Set::<Seq<char>>::empty(),
                    j <= s.roots@.len(),
                    used.len() == out@.len(),
                    forall|a: int| 0 <= a < used.len() ==> #[trigger] used[a] == a,
                    used.len() == j,
                    forall|a: int|
                        0 <= a < used.len() ==> (#[trigger] out@[a]).code@ == ko[s.roots@[a] as int] && node_ok(
                            rv,
                            out@[a],
                            Set::empty(),
                        ),
                decreases s.roots@.len() - j,
            {
                let y = s.roots[j];
                let r = build_node(rows, &s, y, &mut visited);
                let ghost old_out = out@;
                match r {
                    Some(n) => {
                        out.push(n);
                        proof {
                            used = used.push(j as int);
                            assert forall|a: int|
                                0 <= a < used.len() implies (#[trigger] out@[a]).code@ == ko[s.roots@[a] as int]
                                    && node_ok(rv, out@[a], Set::empty()) by {
                                if a < old_out.len() {
                                    assert(out@[a] == old_out[a]);
                                }
                            }
                        }
                    },
                    None => {
                        proof {
                            assert(false);
                        }
                    },
                }
                j = j + 1;
            }
            proof {
                let nc = node_codes(out@);
                assert forall|a: int, b: int| 0 <= a < b < nc.len() implies seq_lt(#[trigger] nc[a], #[trigger] nc[b]) by {
                    assert(s.roots@[a] < s.roots@[b]);
                    assert(nc[a] == ko[s.roots@[a] as int]);
                    assert(nc[b] == ko[s.roots@[b] as int]);
                }
                assert forall|c: Seq<char>|
                    #[trigger] nc.contains(c) <==> (row_codes(rv).contains(c) && tree_parent(rv, c) is None) by {
                    lemma_codes_cover(kv, s.order@, c);
                    if nc.contains(c) {
                        let a = choose|a: int| 0 <= a < nc.len() && nc[a] == c;
                        assert(nc[a] == ko[s.roots@[a] as int]);
                        assert(s.roots@.contains(s.roots@[a]));
                    }
                    if row_codes(rv).contains(c) && tree_parent(rv, c) is None {
                        let yy = choose|yy: int| 0 <= yy < ko.len() && ko[yy] == c;
                        assert(s.roots@.contains(yy as usize));
                        let a = choose|a: int| 0 <= a < s.roots@.len() && s.roots@[a] == yy as usize;
                        assert(nc[a] == c);
                    }
                }
            }
        },
    }
    out
}

/// The tag forest of a locale.
pub struct TaxonomyTreeResponse {
    pub locale: String,
    pub root_nodes: Vec<TaxonomyNode>,
    /// The number of tag rows read.
    pub total_nodes: usize,
}

/// The forest holds the trees of some tag rows, and counts them.
pub open spec fn tree_response_of(resp: TaxonomyTreeResponse, root: Option<Seq<char>>) -> bool {
    exists|rows: Seq<TagRow>|
        #![trigger forest_ok(rows, root, resp.root_nodes@)]
        forest_ok(rows, root, resp.root_nodes@) && resp.total_nodes == rows.len()
}

/// A raw `file_tags` row: code, name and parent codes as read.
pub open spec fn raw_tag_row_ok(row: (Option<Seq<char>>, Option<Seq<char>>, Option<Seq<char>>)) -> bool {
    row.0 is Some && row.1 is Some
}

/// The tag row made of a raw row: its code, its display name (see
/// `display_name_spec`) and the strings of its parent-code JSON array
/// (`[]` when absent).
pub open spec fn tag_row_of(
    t: TagRow,
    row: (Option<Seq<char>>, Option<Seq<char>>, Option<Seq<char>>),
    dict: Option<(Seq<(Seq<char>, Seq<Seq<char>>)>, Seq<(Seq<char>, Seq<char>)>)>,
) -> bool {
    &&& t.code@ == row.0->Some_0
    &&& t.name@ == display_name_spec(dict, row.0->Some_0, row.1->Some_0)
    &&& t.parent_codes.deep_view() == string_list_or_empty_spec(
        match row.2 {
            Some(p) => p,
            None => "[]"@,
        },
    )
}

/// The tag rows made of the raw rows, one each, in order.
pub open spec fn tag_rows_of(
    rows: Seq<TagRow>,
    raw: Seq<(Option<Seq<char>>, Option<Seq<char>>, Option<Seq<char>>)>,
    dict: Option<(Seq<(Seq<char>, Seq<Seq<char>>)>, Seq<(Seq<char>, Seq<char>)>)>,
) -> bool {
    rows.len() == raw.len() && forall|i: int| 0 <= i < raw.len() ==> tag_row_of(#[trigger] rows[i], raw[i], dict)
}

/// The tag forest of raw `file_tags` rows for a locale: `MissingValue`
/// exactly when a row lacks its code or name; otherwise the forest of the
/// tag rows made of them (see `tag_rows_of`, `forest_ok`), counting every
/// row read.
pub fn tree_from_rows(
    raw: &Vec<(Option<String>, Option<String>, Option<String>)>,
    aliases: &Option<TaxonomyAliasesResponse>,
    locale: &str,
    root_filter: Option<&str>,
) -> (r: Result<TaxonomyTreeResponse, QueryError>)
    ensures
        (r is Ok) <==> (forall|i: int| 0 <= i < raw@.len() ==> raw_tag_row_ok(#[trigger] raw.deep_view()[i])),
        r matches Err(e) ==> e is MissingValue,
        r matches Ok(resp) ==> {
            &&& resp.locale@ == locale@
            &&& resp.total_nodes == raw@.len()
            &&& exists|rows: Seq<TagRow>|
                #![trigger tag_rows_of(rows, raw.deep_view(), dictionary_views(*aliases))]
                tag_rows_of(rows, raw.deep_view(), dictionary_views(*aliases)) && forest_ok(
                    rows,
                    match root_filter {
                        Some(f) => Some(f@),
                        None => None,
                    },
                    resp.root_nodes@,
                )
        },
{
    let ghost rv = raw.deep_view();
    let ghost dict = dictionary_views(*aliases);
    let mut rows: Vec<TagRow> = Vec::new();
    let mut i: usize = 0;
    while i < raw.len()
        invariant
            rv == raw.deep_view(),
            dict == dictionary_views(*aliases),
            i <= raw.len(),
            rows@.len() == i,
            forall|k: int| 0 <= k < i ==> raw_tag_row_ok(#[trigger] rv[k]),
            forall|k: int| 0 <= k < i ==> tag_row_of(#[trigger] rows@[k], rv[k], dict),
        decreases raw.len() - i,
    {
        proof {
            assert(rv[i as int] == raw@[i as int].deep_view());
        }
        let code = match &raw[i].0 {
            Some(c) => c.clone(),
            None => {
                return Err(QueryError::MissingValue);
            },
        };
        let name = match &raw[i].1 {
            Some(n) => n.clone(),
            None => {
                return Err(QueryError::MissingValue);
            },
        };
        let parent_text: String = match &raw[i].2 {
            Some(t) => t.clone(),
            None => "[]".to_owned(),
        };
        let parent_codes = string_list_or_empty(parent_text.as_str());
        let shown = display_name(aliases, code.as_str(), name.as_str());
        let ghost name_view = name@;
        let row = TagRow { code, name: shown, parent_codes };
        let ghost before = rows@;
        rows.push(row);
        proof {
            assert forall|k: int| 0 <= k < i + 1 implies tag_row_of(#[trigger] rows@[k], rv[k], dict) by {
                if k < i {
                    assert(rows@[k] == before[k]);
                } else {
                    assert(rows@[k] == row);
                    assert(rv[k].0 == Some(row.code@));
                    assert(rv[k].1 == Some(name_view));
                    assert(parent_text@ == match rv[k].2 {
                        Some(p) => p,
                        None => "[]"@,
                    });
                    assert(row.code@ == rv[k].0->Some_0);
                    assert(row.name@ == display_name_spec(dict, rv[k].0->Some_0, rv[k].1->Some_0));
                    assert(row.parent_codes.deep_view() == string_list_or_empty_spec(parent_text@));
                }
            }
        }
        i = i + 1;
    }
    let forest = build_forest(&rows, root_filter);
    let resp = TaxonomyTreeResponse { locale: locale.to_owned(), root_nodes: forest, total_nodes: raw.len() };
    proof {
        assert(tag_rows_of(rows@, rv, dict));
    }
    Ok(resp)
}

/// Every tag row, ordered by code.
pub const TAG_ROWS_SQL: &'static str = "SELECT code, name, parent_codes FROM file_tags ORDER BY code";

/// The tag forest of `file_tags` for a locale (`target_table` is its alias
/// table, see `query_taxonomy_aliases`).
///
/// Without a `file_tags` table the forest is empty. Each tag is shown under
/// its display name (see `display_name`; a failing alias query leaves the
/// tags' own names), hangs under its first parent code when that is another
/// tag, and children and roots are ordered by code (see `forest_ok`).
///
/// The first statement asks whether `file_tags` exists. When it is the only
/// one, the forest is empty; otherwise the alias dictionary of
/// `target_table` is read next, and the last statement reads every tag row
/// (`TAG_ROWS_SQL`, without parameters).
pub fn query_taxonomy_tree(
    db: &mut Db,
    target_table: &str,
    locale: &str,
    root_filter: Option<&str>,
) -> (r: Result<TaxonomyTreeResponse, QueryError>)
    ensures
        log_extends(old(db).log().push(table_exists_entry("file_tags"@)), final(db).log()),
        final(db).log() == old(db).log().push(table_exists_entry("file_tags"@)) ==> (r matches Ok(resp)
            && resp.root_nodes@.len() == 0 && resp.total_nodes == 0),
        final(db).log().len() > old(db).log().len() + 1 ==> {
            &&& final(db).log()[old(db).log().len() + 1 as int] == table_exists_entry(target_table@)
            &&& final(db).log().last() == (TAG_ROWS_SQL@, Seq::<Seq<char>>::empty())
        },
        r matches Ok(resp) ==> resp.locale@ == locale@ && tree_response_of(
            resp,
            match root_filter {
                Some(f) => Some(f@),
                None => None,
            },
        ),
{
    let ghost root = match root_filter {
        Some(f) => Some(f@),
        None => None,
    };
    let ghost l0 = db.log();
    let ghost first = l0.push(table_exists_entry("file_tags"@));
    if !table_exists(db, "file_tags") {
        let resp = TaxonomyTreeResponse { locale: locale.to_owned(), root_nodes: Vec::new(), total_nodes: 0 };
        proof {
            lemma_log_extends_refl(first);
            let rows = Seq::<TagRow>::empty();
            assert(row_codes(rows) =~= Seq::<Seq<char>>::empty());
            assert(node_codes(resp.root_nodes@) =~= Seq::<Seq<char>>::empty());
            assert(forest_ok(rows, root, resp.root_nodes@));
        }
        return Ok(resp);
    }
    let ghost l1 = db.log();
    let aliases: Option<TaxonomyAliasesResponse> = match query_taxonomy_aliases(db, target_table, locale, None) {
        Ok(resp) => Some(resp),
        Err(_) => None,
    };
    let ghost l2 = db.log();
    let raw = db.select_tag_rows(TAG_ROWS_SQL);
    proof {
        lemma_entry_none(TAG_ROWS_SQL@);
        lemma_log_extends_push(l1, table_exists_entry(target_table@));
        lemma_log_extends_trans(first, l1.push(table_exists_entry(target_table@)), l2);
        lemma_log_extends_trans(first, l2, db.log());
        assert(l2.len() > l0.len() + 1);
        assert(l2[l0.len() + 1 as int] == table_exists_entry(target_table@)) by {
            assert(l2.subrange(0, l1.len() + 1 as int) == l1.push(table_exists_entry(target_table@)));
            assert(l2.subrange(0, l1.len() + 1 as int)[l0.len() + 1 as int] == l2[l0.len() + 1 as int]);
        }
        assert(db.log()[l0.len() + 1 as int] == l2[l0.len() + 1 as int]);
    }
    let raw = sql(raw)?;
    let r = tree_from_rows(&raw, &aliases, locale, root_filter);
    proof {
        if let Ok(ref resp) = r {
            let rows = choose|rows: Seq<TagRow>|
                #![trigger tag_rows_of(rows, raw.deep_view(), dictionary_views(aliases))]
                tag_rows_of(rows, raw.deep_view(), dictionary_views(aliases)) && forest_ok(rows, root, resp.root_nodes@);
            assert(rows.len() == raw@.len());
            assert(forest_ok(rows, root, resp.root_nodes@));
        }
    }
    r
}

/// Query of a tag-forest request.
pub struct TaxonomyTreeQuery {
    /// `zh-CN` when absent.
    pub locale: Option<String>,
    /// The code of the one root to return; all roots when absent.
    pub root: Option<String>,
}

impl Default for TaxonomyTreeQuery {
    fn default() -> (r: TaxonomyTreeQuery)
        ensures
            r.locale is None && r.root is None,
    {
        TaxonomyTreeQuery { locale: None, root: None }
    }
}

impl TaxonomyTreeQuery {
    /// The locale served: the requested one, else `zh-CN`.
    pub fn locale_or_default(&self) -> (r: String)
        ensures
            r@ == match self.locale {
                Some(l) => l@,
                None => "zh-CN"@,
            },
    {
        match &self.locale {
            Some(l) => l.clone(),
            None => "zh-CN".to_owned(),
        }
    }
}

} // verus!
