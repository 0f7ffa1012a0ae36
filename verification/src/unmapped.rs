//! Statistics of the OMW concepts that no tag uses as a parent.
//!
//! A synset `id` is unmapped when no `file_tags.parent_codes` entry is
//! `omw.{id}`. Unmapped synsets are counted twice: by their own lexicographer
//! file, and by the lexicographer file of the root of their hypernym chain.
//! Rows are read the way hash maps filled row by row read them: a repeated
//! synset id or hypernym source takes its last row.
use vstd::prelude::*;
use crate::str_index::{char_views, find_key, index_keys, last_pos, lemma_last_pos, range_index};
use crate::tag_identity::{chars_lt, lemma_seq_lt_total, lemma_seq_lt_transitive, seq_lt};
use crate::text::{chars_eq, chars_of, extend_chars, string_of};

verus! {

/// The values of the rows that were read, in order; unreadable rows skipped.
pub open spec fn present<A>(rows: Seq<Option<A>>) -> Seq<A>
    decreases rows.len(),
{
    if rows.len() == 0 {
        Seq::empty()
    } else {
        let p = present(rows.drop_last());
        match rows.last() {
            Some(x) => p.push(x),
            None => p,
        }
    }
}

/// The group key of a lexicographer file: the file name, or `unknown` when
/// it is absent or empty.
pub open spec fn lexfile_key(lf: Option<Seq<char>>) -> Seq<char> {
    match lf {
        Some(s) => if s.len() > 0 {
            s
        } else {
            "unknown"@
        },
        None => "unknown"@,
    }
}

/// The root reached from `cursor` by following hypernym edges (the last edge
/// read for each source), stopping at a node without a parent, at a node
/// already visited, or after `fuel` steps.
pub open spec fn walk_top(
    srcs: Seq<Seq<char>>,
    tgts: Seq<Seq<char>>,
    cursor: Seq<char>,
    visited: Seq<Seq<char>>,
    fuel: nat,
) -> Seq<char>
    decreases fuel,
{
    if fuel == 0 || visited.contains(cursor) {
        cursor
    } else {
        match last_pos(srcs, cursor) {
            Some(p) => walk_top(srcs, tgts, tgts[p], visited.push(cursor), (fuel - 1) as nat),
            None => cursor,
        }
    }
}

/// The number of hypernym steps a root walk takes at most.
pub open spec fn walk_limit() -> nat {
    64
}

/// The group key of the root of `id`'s hypernym chain.
pub open spec fn top_key(
    ids: Seq<Seq<char>>,
    lexs: Seq<Option<Seq<char>>>,
    srcs: Seq<Seq<char>>,
    tgts: Seq<Seq<char>>,
    id: Seq<char>,
) -> Seq<char> {
    let top = walk_top(srcs, tgts, id, Seq::empty(), walk_limit());
    match last_pos(ids, top) {
        Some(q) => lexfile_key(lexs[q]),
        None => "unknown"@,
    }
}

/// Position `p` holds the last row of its synset, and that synset is not
/// referenced as `omw.{id}`.
pub open spec fn unmapped_at(refs: Seq<Seq<char>>, ids: Seq<Seq<char>>, p: int) -> bool {
    &&& last_pos(ids, ids[p]) == Some(p)
    &&& !refs.contains("omw."@ + ids[p])
}

/// How often `Some(k)` occurs.
pub open spec fn count_some(ks: Seq<Option<Seq<char>>>, k: Seq<char>) -> nat
    decreases ks.len(),
{
    if ks.len() == 0 {
        0
    } else {
        count_some(ks.drop_last(), k) + if ks.last() == Some(k) {
            1nat
        } else {
            0nat
        }
    }
}

/// Group `a` comes before group `b`: larger count first, then smaller key.
pub open spec fn group_before(a: (Seq<char>, int), b: (Seq<char>, int)) -> bool {
    a.1 > b.1 || (a.1 == b.1 && seq_lt(a.0, b.0))
}

/// `groups` are exactly the keys that occur in `ks` with their counts, in
/// `group_before` order.
pub open spec fn groups_of(groups: Seq<(Seq<char>, int)>, ks: Seq<Option<Seq<char>>>) -> bool {
    &&& forall|i: int, j: int| 0 <= i < j < groups.len() ==> group_before(#[trigger] groups[i], #[trigger] groups[j])
    &&& forall|i: int| 0 <= i < groups.len() ==> #[trigger] groups[i].1 == count_some(ks, groups[i].0) && groups[i].1 > 0
    &&& forall|k: Seq<char>| #[trigger] count_some(ks, k) > 0 ==> exists|i: int| 0 <= i < groups.len() && groups[i].0 == k
}

/// Follows the hypernym edges from `start` to the root of its chain.
fn walk_to_top(
    srcs: &Vec<Vec<char>>,
    src_index: &Vec<usize>,
    tgts: &Vec<Vec<char>>,
    start: &Vec<char>,
) -> (r: Vec<char>)
    requires
        srcs.len() == tgts.len(),
        range_index(char_views(srcs@), src_index@, 0, srcs@.len() as int),
    ensures
        r@ == walk_top(char_views(srcs@), char_views(tgts@), start@, Seq::empty(), walk_limit()),
{
    let ghost s = char_views(srcs@);
    let ghost t = char_views(tgts@);
    let mut cursor: Vec<char> = start.clone();
    let mut visited: Vec<Vec<char>> = Vec::new();
    let mut fuel: usize = 64;
    assert(cursor@ =~= start@);
    assert(char_views(visited@) =~= Seq::<Seq<char>>::empty());
    while fuel > 0
        invariant
            s == char_views(srcs@),
            t == char_views(tgts@),
            srcs.len() == tgts.len(),
            range_index(s, src_index@, 0, srcs@.len() as int),
            fuel <= 64,
            walk_top(s, t, start@, Seq::empty(), walk_limit()) == walk_top(
                s,
                t,
                cursor@,
                char_views(visited@),
                fuel as nat,
            ),
        decreases fuel,
    {
        let mut seen = false;
        let mut k: usize = 0;
        while k < visited.len()
            invariant
                k <= visited.len(),
                seen == char_views(visited@).take(k as int).contains(cursor@),
            decreases visited.len() - k,
        {
            proof {
                let cv = char_views(visited@);
                assert(cv.take(k + 1).drop_last() =~= cv.take(k as int));
                crate::strlist::lemma_contains_drop_last(cv.take(k + 1), cursor@);
            }
            if chars_eq(&visited[k], &cursor) {
                seen = true;
            }
            k = k + 1;
        }
        assert(char_views(visited@).take(visited.len() as int) =~= char_views(visited@));
        if seen {
            return cursor;
        }
        match find_key(srcs, src_index, &cursor) {
            Some(p) => {
                proof {
                    lemma_last_pos(s, cursor@);
                }
                let next = tgts[p].clone();
                assert(next@ =~= t[p as int]);
                proof {
                    assert(char_views(visited@).push(cursor@) =~= char_views(visited@.push(cursor)));
                }
                visited.push(cursor);
                cursor = next;
                fuel = fuel - 1;
            },
            None => {
                return cursor;
            },
        }
    }
    cursor
}

/// One group of unmapped concepts and its size.
pub struct UnmappedGroup {
    pub key: String,
    pub count: i64,
}

/// Unmapped concepts counted by own lexicographer file and by that of the
/// root of their hypernym chain.
pub struct UnmappedStats {
    pub by_lexfile: Vec<UnmappedGroup>,
    pub by_top_ancestor: Vec<UnmappedGroup>,
}

/// The (key, count) pairs of a list of groups.
pub open spec fn group_pairs(gs: Seq<UnmappedGroup>) -> Seq<(Seq<char>, int)> {
    gs.map_values(|g: UnmappedGroup| (g.key@, g.count as int))
}

/// The optional keys of a list of optional character vectors.
pub open spec fn opt_views(ks: Seq<Option<Vec<char>>>) -> Seq<Option<Seq<char>>> {
    ks.map_values(|o: Option<Vec<char>>| match o {
        Some(v) => Some(v@),
        None => None,
    })
}

/// The (key, count) pairs of counting groups.
pub open spec fn count_pairs(gs: Seq<(Vec<char>, usize)>) -> Seq<(Seq<char>, int)> {
    gs.map_values(|g: (Vec<char>, usize)| (g.0@, g.1 as int))
}

/// No key occurs twice.
pub open spec fn distinct_keys(gs: Seq<(Seq<char>, int)>) -> bool {
    forall|i: int, j: int| 0 <= i < j < gs.len() ==> (#[trigger] gs[i]).0 != (#[trigger] gs[j]).0
}

/// The keys with their counts, each key once, every occurring key present.
pub open spec fn counted(gs: Seq<(Seq<char>, int)>, ks: Seq<Option<Seq<char>>>) -> bool {
    &&& distinct_keys(gs)
    &&& forall|i: int| 0 <= i < gs.len() ==> #[trigger] gs[i].1 == count_some(ks, gs[i].0) && gs[i].1 > 0
    &&& forall|k: Seq<char>| #[trigger] count_some(ks, k) > 0 ==> exists|i: int| 0 <= i < gs.len() && gs[i].0 == k
}

proof fn lemma_count_some_le(ks: Seq<Option<Seq<char>>>, k: Seq<char>)
    ensures
        count_some(ks, k) <= ks.len(),
    decreases ks.len(),
{
    if ks.len() > 0 {
        lemma_count_some_le(ks.drop_last(), k);
    }
}

/// Counts how often each key occurs, in order of first occurrence.
fn count_groups(ks: &Vec<Option<Vec<char>>>) -> (r: Vec<(Vec<char>, usize)>)
    ensures
        counted(count_pairs(r@), opt_views(ks@)),
{
    let ghost kv = opt_views(ks@);
    let mut groups: Vec<(Vec<char>, usize)> = Vec::new();
    let mut i: usize = 0;
    while i < ks.len()
        invariant
            kv == opt_views(ks@),
            i <= ks.len(),
            counted(count_pairs(groups@), kv.take(i as int)),
        decreases ks.len() - i,
    {
        let ghost old_groups = count_pairs(groups@);
        proof {
            assert(kv.take(i + 1).drop_last() =~= kv.take(i as int));
        }
        match &ks[i] {
            None => {
                proof {
                    assert forall|k: Seq<char>| #[trigger] count_some(kv.take(i + 1), k) == count_some(kv.take(i as int), k) by {}
                }
            },
            Some(key) => {
                let mut found: usize = groups.len();
                let mut x: usize = 0;
                while x < groups.len()
                    invariant
                        x <= groups.len(),
                        found == groups.len() || (found < x && count_pairs(groups@)[found as int].0 == key@),
                        found == groups.len() ==> forall|y: int| 0 <= y < x ==> count_pairs(groups@)[y].0 != key@,
                    decreases groups.len() - x,
                {
                    if found == groups.len() && chars_eq(&groups[x].0, key) {
                        found = x;
                    }
                    x = x + 1;
                }
                proof {
                    lemma_count_some_le(kv.take(i as int), key@);
                }
                if found < groups.len() {
                    let c = groups[found].1;
                    let k2 = groups[found].0.clone();
                    groups.set(found, (k2, c + 1));
                    proof {
                        let g = count_pairs(groups@);
                        assert(g =~= old_groups.update(found as int, (key@, old_groups[found as int].1 + 1)));
                        assert forall|i2: int, j2: int| 0 <= i2 < j2 < g.len() implies (#[trigger] g[i2]).0 != (#[trigger] g[j2]).0 by {
                            assert(old_groups[i2].0 != old_groups[j2].0);
                        }
                        assert forall|k: Seq<char>| #[trigger] count_some(kv.take(i + 1), k) > 0 implies exists|w: int| 0 <= w < g.len() && g[w].0 == k by {
                            if k != key@ {
                                assert(count_some(kv.take(i as int), k) > 0);
                                let w = choose|w: int| 0 <= w < old_groups.len() && old_groups[w].0 == k;
                                assert(g[w].0 == k);
                            } else {
                                assert(g[found as int].0 == k);
                            }
                        }
                    }
                } else {
                    groups.push((key.clone(), 1));
                    proof {
                        let g = count_pairs(groups@);
                        assert(g =~= old_groups.push((key@, 1)));
                        assert(count_some(kv.take(i as int), key@) == 0) by {
                            if count_some(kv.take(i as int), key@) > 0 {
                                let w = choose|w: int| 0 <= w < old_groups.len() && old_groups[w].0 == key@;
                                assert(old_groups[w].0 != key@);
                            }
                        }
                        assert forall|i2: int, j2: int| 0 <= i2 < j2 < g.len() implies (#[trigger] g[i2]).0 != (#[trigger] g[j2]).0 by {
                            if j2 < old_groups.len() {
                                assert(old_groups[i2].0 != old_groups[j2].0);
                            } else {
                                assert(old_groups[i2].0 != key@);
                            }
                        }
                        assert forall|k: Seq<char>| #[trigger] count_some(kv.take(i + 1), k) > 0 implies exists|w: int| 0 <= w < g.len() && g[w].0 == k by {
                            if k != key@ {
                                assert(count_some(kv.take(i as int), k) > 0);
                                let w = choose|w: int| 0 <= w < old_groups.len() && old_groups[w].0 == k;
                                assert(g[w].0 == k);
                            } else {
                                assert(g[g.len() - 1].0 == k);
                            }
                        }
                    }
                }
            },
        }
        i = i + 1;
    }
    assert(kv.take(ks.len() as int) =~= kv);
    groups
}

proof fn lemma_before_transitive(a: (Seq<char>, int), b: (Seq<char>, int), c: (Seq<char>, int))
    requires
        group_before(a, b),
        group_before(b, c),
    ensures
        group_before(a, c),
{
    if a.1 == b.1 && b.1 == c.1 {
        lemma_seq_lt_transitive(a.0, b.0, c.0);
    }
}

proof fn lemma_before_total(a: (Seq<char>, int), b: (Seq<char>, int))
    requires
        a.0 != b.0,
    ensures
        group_before(a, b) || group_before(b, a),
{
    if a.1 == b.1 {
        lemma_seq_lt_total(a.0, b.0);
    }
}

fn before(a: &(Vec<char>, usize), b: &(Vec<char>, usize)) -> (r: bool)
    ensures
        r == group_before((a.0@, a.1 as int), (b.0@, b.1 as int)),
{
    a.1 > b.1 || (a.1 == b.1 && chars_lt(&a.0, &b.0))
}

/// The groups in `group_before` order.
fn sort_groups(gs: &Vec<(Vec<char>, usize)>) -> (r: Vec<(Vec<char>, usize)>)
    requires
        distinct_keys(count_pairs(gs@)),
    ensures
        forall|a: int, b: int| 0 <= a < b < r@.len() ==> group_before(
            #[trigger] count_pairs(r@)[a],
            #[trigger] count_pairs(r@)[b],
        ),
        forall|a: int| 0 <= a < r@.len() ==> count_pairs(gs@).contains(#[trigger] count_pairs(r@)[a]),
        forall|x: int| 0 <= x < gs@.len() ==> count_pairs(r@).contains(#[trigger] count_pairs(gs@)[x]),
{
    let ghost inp = count_pairs(gs@);
    let mut out: Vec<(Vec<char>, usize)> = Vec::new();
    let mut i: usize = 0;
    while i < gs.len()
        invariant
            inp == count_pairs(gs@),
            distinct_keys(inp),
            i <= gs.len(),
            forall|a: int, b: int| 0 <= a < b < out@.len() ==> group_before(
                #[trigger] count_pairs(out@)[a],
                #[trigger] count_pairs(out@)[b],
            ),
            forall|a: int| 0 <= a < out@.len() ==> inp.take(i as int).contains(#[trigger] count_pairs(out@)[a]),
            forall|x: int| 0 <= x < i ==> count_pairs(out@).contains(#[trigger] inp[x]),
        decreases gs.len() - i,
    {
        let g = (gs[i].0.clone(), gs[i].1);
        let ghost gv = (g.0@, g.1 as int);
        assert(g.0@ =~= gs@[i as int].0@);
        assert(gv == inp[i as int]);
        let ghost old_o = count_pairs(out@);
        let mut pos: usize = 0;
        while pos < out.len() && !before(&g, &out[pos])
            invariant
                pos <= out.len(),
                old_o == count_pairs(out@),
                gv == (g.0@, g.1 as int),
                forall|y: int| 0 <= y < pos ==> !group_before(gv, #[trigger] old_o[y]),
            decreases out.len() - pos,
        {
            pos = pos + 1;
        }
        proof {
            // every element already out has a different key from g
            assert forall|a: int| 0 <= a < old_o.len() implies (#[trigger] old_o[a]).0 != gv.0 by {
                assert(inp.take(i as int).contains(old_o[a]));
                let x = choose|x: int| 0 <= x < inp.take(i as int).len() && inp.take(i as int)[x] == old_o[a];
                assert(inp[x] == old_o[a]);
                assert(inp[x].0 != inp[i as int].0);
            }
        }
        out.insert(pos, g);
        proof {
            let o = count_pairs(out@);
            assert(o =~= old_o.insert(pos as int, gv));
            assert forall|a: int, b: int| 0 <= a < b < o.len() implies group_before(#[trigger] o[a], #[trigger] o[b]) by {
                if a < pos && b < pos {
                    assert(o[a] == old_o[a] && o[b] == old_o[b]);
                } else if a < pos && b == pos {
                    assert(!group_before(gv, old_o[a]));
                    lemma_before_total(old_o[a], gv);
                } else if a < pos && b > pos {
                    assert(o[a] == old_o[a] && o[b] == old_o[b - 1]);
                } else if a == pos {
                    assert(o[b] == old_o[b - 1]);
                    assert(group_before(gv, old_o[pos as int]));
                    if b - 1 > pos {
                        assert(group_before(old_o[pos as int], old_o[b - 1]));
                        lemma_before_transitive(gv, old_o[pos as int], old_o[b - 1]);
                    }
                } else {
                    assert(o[a] == old_o[a - 1] && o[b] == old_o[b - 1]);
                }
            }
            assert forall|a: int| 0 <= a < o.len() implies inp.take(i + 1).contains(#[trigger] o[a]) by {
                assert(inp.take(i + 1)[i as int] == gv);
                if a == pos {
                } else {
                    let a0 = if a < pos { a } else { a - 1 };
                    assert(o[a] == old_o[a0]);
                    assert(inp.take(i as int).contains(old_o[a0]));
                    let x = choose|x: int| 0 <= x < inp.take(i as int).len() && inp.take(i as int)[x] == old_o[a0];
                    assert(inp.take(i + 1)[x] == old_o[a0]);
                }
            }
            assert forall|x: int| 0 <= x < i + 1 implies o.contains(#[trigger] inp[x]) by {
                if x == i {
                    assert(o[pos as int] == gv);
                } else {
                    assert(old_o.contains(inp[x]));
                    let a0 = choose|a0: int| 0 <= a0 < old_o.len() && old_o[a0] == inp[x];
                    if a0 < pos {
                        assert(o[a0] == inp[x]);
                    } else {
                        assert(o[a0 + 1] == inp[x]);
                    }
                }
            }
        }
        i = i + 1;
    }
    assert(inp.take(gs.len() as int) =~= inp);
    out
}

/// The groups of `ks`, largest first and then by key, as report entries.
fn ranked_groups(ks: &Vec<Option<Vec<char>>>) -> (r: Vec<UnmappedGroup>)
    requires
        ks.len() <= i64::MAX,
    ensures
        groups_of(group_pairs(r@), opt_views(ks@)),
{
    let ghost kv = opt_views(ks@);
    let counts = count_groups(ks);
    let sorted = sort_groups(&counts);
    let ghost cp = count_pairs(counts@);
    let ghost sp = count_pairs(sorted@);
    let mut out: Vec<UnmappedGroup> = Vec::new();
    let mut i: usize = 0;
    while i < sorted.len()
        invariant
            kv == opt_views(ks@),
            ks.len() <= i64::MAX,
            sp == count_pairs(sorted@),
            cp == count_pairs(counts@),
            counted(cp, kv),
            forall|a: int| 0 <= a < sp.len() ==> cp.contains(#[trigger] sp[a]),
            i <= sorted.len(),
            group_pairs(out@) == sp.take(i as int),
        decreases sorted.len() - i,
    {
        proof {
            assert(cp.contains(sp[i as int]));
            let x = choose|x: int| 0 <= x < cp.len() && cp[x] == sp[i as int];
            lemma_count_some_le(kv, cp[x].0);
            assert(cp[x].1 == count_some(kv, cp[x].0));
            assert(kv.len() == ks.len());
            assert(sorted@[i as int].1 as int == sp[i as int].1);
        }
        let g = UnmappedGroup { key: string_of(&sorted[i].0), count: sorted[i].1 as i64 };
        let ghost old_out = out@;
        out.push(g);
        proof {
            assert(sorted@[i as int].0@ == sp[i as int].0);
            assert(group_pairs(out@) =~= group_pairs(old_out).push(sp[i as int]));
            assert(sp.take(i + 1) =~= sp.take(i as int).push(sp[i as int]));
        }
        i = i + 1;
    }
    proof {
        let gp = group_pairs(out@);
        assert(sp.take(sorted.len() as int) =~= sp);
        assert forall|a: int| 0 <= a < gp.len() implies #[trigger] gp[a].1 == count_some(kv, gp[a].0) && gp[a].1 > 0 by {
            assert(cp.contains(sp[a]));
            let x = choose|x: int| 0 <= x < cp.len() && cp[x] == sp[a];
        }
        assert forall|k: Seq<char>| #[trigger] count_some(kv, k) > 0 implies exists|a: int| 0 <= a < gp.len() && gp[a].0 == k by {
            let x = choose|x: int| 0 <= x < cp.len() && cp[x].0 == k;
            assert(count_pairs(sorted@).contains(cp[x]));
            let a = choose|a: int| 0 <= a < sp.len() && sp[a] == cp[x];
            assert(gp[a].0 == k);
        }
    }
    out
}

/// The referenced codes that were read.
pub open spec fn ref_codes(rows: Seq<Option<Seq<char>>>) -> Seq<Seq<char>> {
    present(rows)
}

/// The synset ids that were read.
pub open spec fn synset_ids(rows: Seq<Option<(Seq<char>, Option<Seq<char>>)>>) -> Seq<Seq<char>> {
    present(rows).map_values(|x: (Seq<char>, Option<Seq<char>>)| x.0)
}

/// The lexicographer files of the synsets that were read.
pub open spec fn synset_lexfiles(rows: Seq<Option<(Seq<char>, Option<Seq<char>>)>>) -> Seq<
    Option<Seq<char>>,
> {
    present(rows).map_values(|x: (Seq<char>, Option<Seq<char>>)| x.1)
}

/// The hypernym sources that were read.
pub open spec fn edge_sources(rows: Seq<Option<(Seq<char>, Seq<char>)>>) -> Seq<Seq<char>> {
    present(rows).map_values(|x: (Seq<char>, Seq<char>)| x.0)
}

/// The hypernym targets that were read.
pub open spec fn edge_targets(rows: Seq<Option<(Seq<char>, Seq<char>)>>) -> Seq<Seq<char>> {
    present(rows).map_values(|x: (Seq<char>, Seq<char>)| x.1)
}

/// For each synset row: its own group key when it is counted.
pub open spec fn lexfile_groups(
    refs: Seq<Seq<char>>,
    ids: Seq<Seq<char>>,
    lexs: Seq<Option<Seq<char>>>,
) -> Seq<Option<Seq<char>>> {
    Seq::new(
        ids.len(),
        |p: int|
            if unmapped_at(refs, ids, p) {
                Some(lexfile_key(lexs[p]))
            } else {
                None
            },
    )
}

/// For each synset row: the group key of its chain's root when it is counted.
pub open spec fn top_groups(
    refs: Seq<Seq<char>>,
    ids: Seq<Seq<char>>,
    lexs: Seq<Option<Seq<char>>>,
    srcs: Seq<Seq<char>>,
    tgts: Seq<Seq<char>>,
) -> Seq<Option<Seq<char>>> {
    Seq::new(
        ids.len(),
        |p: int|
            if unmapped_at(refs, ids, p) {
                Some(top_key(ids, lexs, srcs, tgts, ids[p]))
            } else {
                None
            },
    )
}

proof fn lemma_present_len<A>(rows: Seq<Option<A>>)
    ensures
        present(rows).len() <= rows.len(),
    decreases rows.len(),
{
    if rows.len() > 0 {
        lemma_present_len(rows.drop_last());
    }
}

proof fn lemma_present_step<A>(rows: Seq<Option<A>>, i: int)
    requires
        0 <= i < rows.len(),
    ensures
        present(rows.take(i + 1)) == match rows[i] {
            Some(x) => present(rows.take(i)).push(x),
            None => present(rows.take(i)),
        },
{
    assert(rows.take(i + 1).drop_last() =~= rows.take(i));
    assert(rows.take(i + 1).last() == rows[i]);
}

fn lexfile_key_exec(lf: &Option<String>) -> (r: Vec<char>)
    ensures
        r@ == lexfile_key(lf.deep_view()),
{
    match lf {
        Some(s) => {
            let c = chars_of(s.as_str());
            if c.len() > 0 {
                c
            } else {
                chars_of("unknown")
            }
        },
        None => chars_of("unknown"),
    }
}

/// `r` holds the statistics of the given referenced-code, synset and
/// hypernym rows.
pub open spec fn stats_of(
    r: UnmappedStats,
    referenced: Seq<Option<Seq<char>>>,
    synsets: Seq<Option<(Seq<char>, Option<Seq<char>>)>>,
    relations: Seq<Option<(Seq<char>, Seq<char>)>>,
) -> bool {
    &&& groups_of(
        group_pairs(r.by_lexfile@),
        lexfile_groups(ref_codes(referenced), synset_ids(synsets), synset_lexfiles(synsets)),
    )
    &&& groups_of(
        group_pairs(r.by_top_ancestor@),
        top_groups(
            ref_codes(referenced),
            synset_ids(synsets),
            synset_lexfiles(synsets),
            edge_sources(relations),
            edge_targets(relations),
        ),
    )
}

/// Counts the synsets that no tag uses as a parent, by lexicographer file
/// and by the lexicographer file of their hypernym chain's root, each list
/// largest group first and then by key. `referenced` are the parent codes in
/// use, `synsets` the (id, lexicographer file) rows and `relations` the
/// (source, target) hypernym edges; `None` rows could not be read and are
/// skipped.
pub fn unmapped_stats_from(
    referenced: &Vec<Option<String>>,
    synsets: &Vec<Option<(String, Option<String>)>>,
    relations: &Vec<Option<(String, String)>>,
) -> (r: UnmappedStats)
    requires
        synsets.len() <= i64::MAX,
    ensures
        stats_of(r, referenced.deep_view(), synsets.deep_view(), relations.deep_view()),
{
    let ghost rv = referenced.deep_view();
    let ghost sv = synsets.deep_view();
    let ghost ev = relations.deep_view();
    // referenced codes
    let mut refs: Vec<Vec<char>> = Vec::new();
    let mut i: usize = 0;
    while i < referenced.len()
        invariant
            rv == referenced.deep_view(),
            i <= referenced.len(),
            char_views(refs@) == present(rv.take(i as int)),
        decreases referenced.len() - i,
    {
        proof {
            lemma_present_step(rv, i as int);
        }
        if let Some(c) = &referenced[i] {
            refs.push(chars_of(c.as_str()));
            proof {
                assert(char_views(refs@) =~= present(rv.take(i as int)).push(c@));
            }
        }
        i = i + 1;
    }
    assert(rv.take(referenced.len() as int) =~= rv);
    // synsets
    let mut ids: Vec<Vec<char>> = Vec::new();
    let mut lexs: Vec<Option<String>> = Vec::new();
    let mut i: usize = 0;
    while i < synsets.len()
        invariant
            sv == synsets.deep_view(),
            i <= synsets.len(),
            char_views(ids@) == synset_ids(sv.take(i as int)),
            lexs.deep_view() == synset_lexfiles(sv.take(i as int)),
        decreases synsets.len() - i,
    {
        proof {
            lemma_present_step(sv, i as int);
        }
        if let Some((id, lf)) = &synsets[i] {
            let ghost old_ids = char_views(ids@);
            let ghost old_lexs = lexs.deep_view();
            ids.push(chars_of(id.as_str()));
            let lf2: Option<String> = match lf {
                Some(x) => Some(x.clone()),
                None => None,
            };
            lexs.push(lf2);
            proof {
                let pr = present(sv.take(i as int));
                let row = (id@, lf.deep_view());
                assert(sv[i as int] == Some(row));
                assert(present(sv.take(i + 1)) == pr.push(row));
                assert(char_views(ids@) =~= old_ids.push(id@));
                assert(synset_ids(sv.take(i + 1)) =~= synset_ids(sv.take(i as int)).push(id@));
                assert(lexs.deep_view() =~= old_lexs.push(lf.deep_view()));
                assert(synset_lexfiles(sv.take(i + 1)) =~= synset_lexfiles(sv.take(i as int)).push(lf.deep_view()));
            }
        } else {
            proof {
                assert(char_views(ids@) =~= synset_ids(sv.take(i + 1)));
                assert(lexs.deep_view() =~= synset_lexfiles(sv.take(i + 1)));
            }
        }
        i = i + 1;
    }
    assert(sv.take(synsets.len() as int) =~= sv);
    // hypernym edges
    let mut srcs: Vec<Vec<char>> = Vec::new();
    let mut tgts: Vec<Vec<char>> = Vec::new();
    let mut i: usize = 0;
    while i < relations.len()
        invariant
            ev == relations.deep_view(),
            i <= relations.len(),
            char_views(srcs@) == edge_sources(ev.take(i as int)),
            char_views(tgts@) == edge_targets(ev.take(i as int)),
        decreases relations.len() - i,
    {
        proof {
            lemma_present_step(ev, i as int);
        }
        if let Some((a, b)) = &relations[i] {
            let ghost old_s = char_views(srcs@);
            let ghost old_t = char_views(tgts@);
            srcs.push(chars_of(a.as_str()));
            tgts.push(chars_of(b.as_str()));
            proof {
                let row = (a@, b@);
                assert(ev[i as int] == Some(row));
                assert(present(ev.take(i + 1)) == present(ev.take(i as int)).push(row));
                assert(char_views(srcs@) =~= old_s.push(a@));
                assert(char_views(tgts@) =~= old_t.push(b@));
                assert(edge_sources(ev.take(i + 1)) =~= edge_sources(ev.take(i as int)).push(a@));
                assert(edge_targets(ev.take(i + 1)) =~= edge_targets(ev.take(i as int)).push(b@));
                assert(char_views(srcs@) =~= edge_sources(ev.take(i + 1)));
                assert(char_views(tgts@) =~= edge_targets(ev.take(i + 1)));
            }
        } else {
            proof {
                assert(char_views(srcs@) =~= edge_sources(ev.take(i + 1)));
                assert(char_views(tgts@) =~= edge_targets(ev.take(i + 1)));
            }
        }
        i = i + 1;
    }
    assert(ev.take(relations.len() as int) =~= ev);
    let ghost refs_v = ref_codes(rv);
    let ghost ids_v = synset_ids(sv);
    let ghost lexs_v = synset_lexfiles(sv);
    let ghost srcs_v = edge_sources(ev);
    let ghost tgts_v = edge_targets(ev);
    let ref_index = index_keys(&refs);
    let id_index = index_keys(&ids);
    let src_index = index_keys(&srcs);
    proof {
        lemma_present_len(sv);
    }
    let mut by_lex: Vec<Option<Vec<char>>> = Vec::new();
    let mut by_top: Vec<Option<Vec<char>>> = Vec::new();
    let mut p: usize = 0;
    while p < ids.len()
        invariant
            char_views(refs@) == refs_v,
            char_views(ids@) == ids_v,
            lexs.deep_view() == lexs_v,
            char_views(srcs@) == srcs_v,
            char_views(tgts@) == tgts_v,
            srcs.len() == tgts.len(),
            range_index(refs_v, ref_index@, 0, refs_v.len() as int),
            range_index(ids_v, id_index@, 0, ids_v.len() as int),
            range_index(srcs_v, src_index@, 0, srcs_v.len() as int),
            p <= ids.len(),
            ids.len() == lexs.len(),
            opt_views(by_lex@) == lexfile_groups(refs_v, ids_v, lexs_v).take(p as int),
            opt_views(by_top@) == top_groups(refs_v, ids_v, lexs_v, srcs_v, tgts_v).take(p as int),
        decreases ids.len() - p,
    {
        let last = match find_key(&ids, &id_index, &ids[p]) {
            Some(q) => q == p,
            None => false,
        };
        let mut prefixed = chars_of("omw.");
        extend_chars(&mut prefixed, &ids[p]);
        let referenced_here = find_key(&refs, &ref_index, &prefixed).is_some();
        proof {
            lemma_last_pos(refs_v, prefixed@);
            if let Some(q) = last_pos(refs_v, prefixed@) {
                assert(refs_v[q] == prefixed@);
            } else {
                if refs_v.contains(prefixed@) {
                    let q = choose|q: int| 0 <= q < refs_v.len() && refs_v[q] == prefixed@;
                }
            }
            assert(ids_v[p as int] == ids@[p as int]@);
        }
        let ghost old_lex = by_lex@;
        let ghost old_top = by_top@;
        let ghost lg = lexfile_groups(refs_v, ids_v, lexs_v);
        let ghost tg = top_groups(refs_v, ids_v, lexs_v, srcs_v, tgts_v);
        proof {
            assert(last == (last_pos(ids_v, ids_v[p as int]) == Some(p as int)));
            assert(referenced_here == refs_v.contains("omw."@ + ids_v[p as int]));
            assert(unmapped_at(refs_v, ids_v, p as int) == (last && !referenced_here));
        }
        if last && !referenced_here {
            let lk = lexfile_key_exec(&lexs[p]);
            let top = walk_to_top(&srcs, &src_index, &tgts, &ids[p]);
            let tk = match find_key(&ids, &id_index, &top) {
                Some(q) => {
                    proof {
                        lemma_last_pos(ids_v, top@);
                    }
                    lexfile_key_exec(&lexs[q])
                },
                None => chars_of("unknown"),
            };
            proof {
                assert(lk@ == lexfile_key(lexs_v[p as int]));
                assert(top@ == walk_top(srcs_v, tgts_v, ids_v[p as int], Seq::empty(), walk_limit()));
                assert(tk@ == top_key(ids_v, lexs_v, srcs_v, tgts_v, ids_v[p as int]));
                assert(lg[p as int] == Some(lk@));
                assert(tg[p as int] == Some(tk@));
            }
            by_lex.push(Some(lk));
            by_top.push(Some(tk));
            proof {
                assert(opt_views(by_lex@) =~= opt_views(old_lex).push(Some(lk@)));
                assert(opt_views(by_top@) =~= opt_views(old_top).push(Some(tk@)));
            }
        } else {
            by_lex.push(None);
            by_top.push(None);
            proof {
                assert(lg[p as int] == None::<Seq<char>>);
                assert(tg[p as int] == None::<Seq<char>>);
                assert(opt_views(by_lex@) =~= opt_views(old_lex).push(None));
                assert(opt_views(by_top@) =~= opt_views(old_top).push(None));
            }
        }
        proof {
            assert(lg.take(p + 1) =~= lg.take(p as int).push(lg[p as int]));
            assert(tg.take(p + 1) =~= tg.take(p as int).push(tg[p as int]));
        }
        p = p + 1;
    }
    proof {
        assert(lexfile_groups(refs_v, ids_v, lexs_v).take(ids.len() as int) =~= lexfile_groups(refs_v, ids_v, lexs_v));
        assert(top_groups(refs_v, ids_v, lexs_v, srcs_v, tgts_v).take(ids.len() as int) =~= top_groups(refs_v, ids_v, lexs_v, srcs_v, tgts_v));
    }
    UnmappedStats { by_lexfile: ranked_groups(&by_lex), by_top_ancestor: ranked_groups(&by_top) }
}

} // verus!
