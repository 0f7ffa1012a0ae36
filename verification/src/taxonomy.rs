//! The controlled tag taxonomy: per-language alias dictionaries (with the
//! display cascade to English) and the tag forest built from `file_tags`.
//!
//! Alias rows `(tag_code, lemma, is_canonical)` are aggregated per code: each
//! lemma once, a canonical lemma moved to the front, the first canonical
//! lemma of a code becoming its canonical name.
use vstd::prelude::*;
use crate::str_index::{char_views, find_slot, index_keys, keys_at, lemma_slots_distinct, range_index};
use crate::strlist::{clone_strings, contains_string};
use crate::tag_identity::strictly_sorted;
use crate::db::{required, sql, QueryError};
use crate::sqlite::{lemma_entry_none, lemma_entry_one, lemma_entry_two, lemma_log_suffix, log_extends, Db};
use crate::text::{chars_eq, chars_of, extend_str, string_of, trim, trim_chars};

verus! {

/// The alias list of code `k` after the rows: each lemma once, a canonical
/// lemma put in front, others appended; `None` when no row has the code.
pub open spec fn alias_list(rows: Seq<(Seq<char>, Seq<char>, bool)>, k: Seq<char>) -> Option<
    Seq<Seq<char>>,
>
    decreases rows.len(),
{
    if rows.len() == 0 {
        None
    } else {
        let prev = alias_list(rows.drop_last(), k);
        let row = rows.last();
        if row.0 != k {
            prev
        } else {
            let entry = match prev {
                Some(e) => e,
                None => Seq::empty(),
            };
            Some(
                if entry.contains(row.1) {
                    entry
                } else if row.2 {
                    seq![row.1] + entry
                } else {
                    entry.push(row.1)
                },
            )
        }
    }
}

/// The canonical name of code `k` after the rows: the lemma of its first
/// canonical row.
pub open spec fn alias_canonical(rows: Seq<(Seq<char>, Seq<char>, bool)>, k: Seq<char>) -> Option<
    Seq<char>,
>
    decreases rows.len(),
{
    if rows.len() == 0 {
        None
    } else {
        let prev = alias_canonical(rows.drop_last(), k);
        let row = rows.last();
        if row.0 == k && row.2 && prev is None {
            Some(row.1)
        } else {
            prev
        }
    }
}

/// A code with a canonical name has an alias list.
pub proof fn lemma_canonical_has_list(rows: Seq<(Seq<char>, Seq<char>, bool)>, k: Seq<char>)
    ensures
        alias_canonical(rows, k) is Some ==> alias_list(rows, k) is Some,
        alias_list(rows, k) matches Some(l) ==> l.len() > 0,
    decreases rows.len(),
{
    if rows.len() > 0 {
        lemma_canonical_has_list(rows.drop_last(), k);
    }
}

/// The per-code aggregation of alias rows.
pub struct AliasTable {
    keys: Vec<Vec<char>>,
    order: Vec<usize>,
    lists: Vec<Vec<String>>,
    canon: Vec<Option<String>>,
}

impl AliasTable {
    /// The codes of the table, one per slot, increasing.
    pub closed spec fn codes(&self) -> Seq<Seq<char>> {
        keys_at(char_views(self.keys@), self.order@)
    }

    /// The alias list of slot `x`.
    pub closed spec fn list_at(&self, x: int) -> Seq<Seq<char>> {
        self.lists@[x].deep_view()
    }

    /// The canonical name of slot `x`.
    pub closed spec fn canon_at(&self, x: int) -> Option<Seq<char>> {
        self.canon@[x].deep_view()
    }

    pub closed spec fn wf(&self) -> bool {
        &&& range_index(char_views(self.keys@), self.order@, 0, self.keys@.len() as int)
        &&& self.lists@.len() == self.order@.len()
        &&& self.canon@.len() == self.order@.len()
    }

    /// The table holds, for every code, the aggregation of `rows`.
    pub open spec fn holds(&self, rows: Seq<(Seq<char>, Seq<char>, bool)>) -> bool {
        &&& self.wf()
        &&& strictly_sorted(self.codes())
        &&& forall|x: int|
            0 <= x < self.codes().len() ==> alias_list(rows, #[trigger] self.codes()[x]) == Some(
                self.list_at(x),
            ) && alias_canonical(rows, self.codes()[x]) == self.canon_at(x)
        &&& forall|k: Seq<char>|
            !self.codes().contains(k) ==> #[trigger] alias_list(rows, k) is None && alias_canonical(
                rows,
                k,
            ) is None
    }

    /// The number of codes.
    pub fn len(&self) -> (r: usize)
        requires
            self.wf(),
        ensures
            r == self.codes().len(),
    {
        self.order.len()
    }

    /// The code of slot `x`.
    pub fn code(&self, x: usize) -> (r: &Vec<char>)
        requires
            self.wf(),
            x < self.codes().len(),
        ensures
            r@ == self.codes()[x as int],
    {
        &self.keys[self.order[x]]
    }

    /// The alias list of slot `x`.
    pub fn list(&self, x: usize) -> (r: &Vec<String>)
        requires
            self.wf(),
            x < self.codes().len(),
        ensures
            r.deep_view() == self.list_at(x as int),
    {
        &self.lists[x]
    }

    /// The slot of code `k`.
    pub fn find(&self, k: &[char]) -> (r: Option<usize>)
        requires
            self.wf(),
        ensures
            match r {
                Some(x) => x < self.codes().len() && self.codes()[x as int] == k@,
                None => !self.codes().contains(k@),
            },
    {
        find_slot(&self.keys, &self.order, k)
    }

    /// The canonical name of slot `x`.
    pub fn canonical(&self, x: usize) -> (r: &Option<String>)
        requires
            self.wf(),
            x < self.codes().len(),
        ensures
            r.deep_view() == self.canon_at(x as int),
    {
        &self.canon[x]
    }
}

/// The (code, lemma, canonical) rows of string rows.
pub open spec fn alias_row_views(rows: Seq<(String, String, bool)>) -> Seq<(Seq<char>, Seq<char>, bool)> {
    rows.map_values(|r: (String, String, bool)| (r.0@, r.1@, r.2))
}

proof fn lemma_fold_step(rows: Seq<(Seq<char>, Seq<char>, bool)>, i: int, k: Seq<char>)
    requires
        0 <= i < rows.len(),
    ensures
        alias_list(rows.take(i + 1), k) == (if rows[i].0 != k {
            alias_list(rows.take(i), k)
        } else {
            let entry = match alias_list(rows.take(i), k) {
                Some(e) => e,
                None => Seq::empty(),
            };
            Some(
                if entry.contains(rows[i].1) {
                    entry
                } else if rows[i].2 {
                    seq![rows[i].1] + entry
                } else {
                    entry.push(rows[i].1)
                },
            )
        }),
        alias_canonical(rows.take(i + 1), k) == (if rows[i].0 == k && rows[i].2 && alias_canonical(
            rows.take(i),
            k,
        ) is None {
            Some(rows[i].1)
        } else {
            alias_canonical(rows.take(i), k)
        }),
{
    assert(rows.take(i + 1).drop_last() =~= rows.take(i));
    assert(rows.take(i + 1).last() == rows[i]);
}

/// Aggregates alias rows per code (see `alias_list`, `alias_canonical`).
pub fn aggregate_aliases(rows: &Vec<(String, String, bool)>) -> (t: AliasTable)
    ensures
        t.holds(alias_row_views(rows@)),
{
    let ghost rv = alias_row_views(rows@);
    let mut keys: Vec<Vec<char>> = Vec::new();
    let mut i: usize = 0;
    while i < rows.len()
        invariant
            i <= rows.len(),
            rv == alias_row_views(rows@),
            char_views(keys@) == rv.take(i as int).map_values(|r: (Seq<char>, Seq<char>, bool)| r.0),
        decreases rows.len() - i,
    {
        let ghost old_keys = char_views(keys@);
        keys.push(chars_of(rows[i].0.as_str()));
        proof {
            assert(rv[i as int].0 == rows@[i as int].0@);
            assert(char_views(keys@) =~= old_keys.push(rows@[i as int].0@));
            assert(rv.take(i + 1) =~= rv.take(i as int).push(rv[i as int]));
            assert(char_views(keys@) =~= rv.take(i + 1).map_values(|r: (Seq<char>, Seq<char>, bool)| r.0));
        }
        i = i + 1;
    }
    assert(rv.take(rows.len() as int) =~= rv);
    let ghost kv = char_views(keys@);
    assert(kv.len() == rv.len());
    assert(forall|j: int| 0 <= j < rv.len() ==> #[trigger] kv[j] == rv[j].0);
    let order = index_keys(&keys);
    let ghost ko = keys_at(kv, order@);
    let mut lists: Vec<Vec<String>> = Vec::new();
    let mut canon: Vec<Option<String>> = Vec::new();
    let mut x: usize = 0;
    while x < order.len()
        invariant
            x <= order.len(),
            lists@.len() == x,
            canon@.len() == x,
            forall|y: int| 0 <= y < x ==> (#[trigger] lists@[y])@.len() == 0 && canon@[y] is None,
        decreases order.len() - x,
    {
        lists.push(Vec::new());
        canon.push(None);
        x = x + 1;
    }
    let mut i: usize = 0;
    while i < rows.len()
        invariant
            rv == alias_row_views(rows@),
            kv == char_views(keys@),
            ko == keys_at(kv, order@),
            kv.len() == rv.len(),
            forall|j: int| 0 <= j < rv.len() ==> #[trigger] kv[j] == rv[j].0,
            range_index(kv, order@, 0, kv.len() as int),
            lists@.len() == order@.len(),
            canon@.len() == order@.len(),
            i <= rows.len(),
            forall|y: int|
                0 <= y < ko.len() ==> match alias_list(rv.take(i as int), #[trigger] ko[y]) {
                    Some(l) => lists@[y].deep_view() == l,
                    None => lists@[y]@.len() == 0,
                } && alias_canonical(rv.take(i as int), ko[y]) == canon@[y].deep_view(),
            forall|k: Seq<char>|
                !ko.contains(k) ==> #[trigger] alias_list(rv.take(i as int), k) is None
                    && alias_canonical(rv.take(i as int), k) is None,
        decreases rows.len() - i,
    {
        proof {
            assert(ko.contains(kv[i as int]));
        }
        let slot = find_slot(&keys, &order, &keys[i]);
        let x = match slot {
            Some(x) => x,
            None => {
                proof {
                    assert(false);
                }
                0
            },
        };
        let code_k = keys[i].clone();
        let lemma = rows[i].1.clone();
        let is_canon = rows[i].2;
        let ghost old_lists = lists@;
        let ghost old_canon = canon@;
        let ghost k = ko[x as int];
        assert(k == rv[i as int].0);
        if !contains_string(&lists[x], &lemma) {
            if is_canon {
                lists[x].insert(0, lemma.clone());
            } else {
                lists[x].push(lemma.clone());
            }
        }
        if is_canon && canon[x].is_none() {
            canon.set(x, Some(lemma.clone()));
        }
        proof {
            assert forall|y: int|
                0 <= y < ko.len() implies match alias_list(rv.take(i + 1), #[trigger] ko[y]) {
                    Some(l) => lists@[y].deep_view() == l,
                    None => lists@[y]@.len() == 0,
                } && alias_canonical(rv.take(i + 1), ko[y]) == canon@[y].deep_view() by {
                lemma_fold_step(rv, i as int, ko[y]);
                if y != x {
                    lemma_slots_distinct(kv, order@, x as int, y);
                    assert(lists@[y] == old_lists[y]);
                    assert(canon@[y] == old_canon[y]);
                } else {
                    let entry = old_lists[y].deep_view();
                    if !entry.contains(lemma@) {
                        if is_canon {
                            assert(lists@[y].deep_view() =~= seq![lemma@] + entry);
                        } else {
                            assert(lists@[y].deep_view() =~= entry.push(lemma@));
                        }
                    } else {
                        assert(lists@[y].deep_view() =~= entry);
                    }
                }
            }
            assert forall|k2: Seq<char>|
                !ko.contains(k2) implies #[trigger] alias_list(rv.take(i + 1), k2) is None
                    && alias_canonical(rv.take(i + 1), k2) is None by {
                lemma_fold_step(rv, i as int, k2);
            }
        }
        i = i + 1;
    }
    assert(rv.take(rows.len() as int) =~= rv);
    let t = AliasTable { keys, order, lists, canon };
    proof {
        assert forall|x2: int| 0 <= x2 < t.codes().len() implies alias_list(rv, #[trigger] t.codes()[x2]) == Some(
            t.list_at(x2),
        ) && alias_canonical(rv, t.codes()[x2]) == t.canon_at(x2) by {
            assert(t.codes()[x2] == ko[x2]);
            let p = t.order@[x2] as int;
            assert(0 <= p < rv.len());
            assert(kv[p] == ko[x2]);
            assert(alias_list(rv, ko[x2]) is Some) by {
                lemma_alias_list_some(rv, p);
            }
        }
    }
    t
}

/// A code that occurs in some row has an alias list.
pub proof fn lemma_alias_list_some(rows: Seq<(Seq<char>, Seq<char>, bool)>, p: int)
    requires
        0 <= p < rows.len(),
    ensures
        alias_list(rows, rows[p].0) is Some,
    decreases rows.len(),
{
    if p < rows.len() - 1 {
        lemma_alias_list_some(rows.drop_last(), p);
    }
}

/// The first lemma of a list, if any.
pub open spec fn first_of(l: Option<Seq<Seq<char>>>) -> Option<Seq<char>> {
    match l {
        Some(l) => if l.len() > 0 {
            Some(l[0])
        } else {
            None
        },
        None => None,
    }
}

/// The alias list of code `k` in the response: the target language's list,
/// else (with the English cascade) the English canonical name alone.
pub open spec fn final_list(
    t: Seq<(Seq<char>, Seq<char>, bool)>,
    e: Option<Seq<(Seq<char>, Seq<char>, bool)>>,
    k: Seq<char>,
) -> Option<Seq<Seq<char>>> {
    match alias_list(t, k) {
        Some(l) => Some(l),
        None => match e {
            Some(er) => match alias_canonical(er, k) {
                Some(c) => Some(seq![c]),
                None => None,
            },
            None => None,
        },
    }
}

/// The canonical name of code `k` in the response: the target language's
/// canonical lemma, else its first alias; with the English cascade, else the
/// English canonical lemma, else the first English alias.
pub open spec fn final_canonical(
    t: Seq<(Seq<char>, Seq<char>, bool)>,
    e: Option<Seq<(Seq<char>, Seq<char>, bool)>>,
    k: Seq<char>,
) -> Option<Seq<char>> {
    let c1 = match alias_canonical(t, k) {
        Some(c) => Some(c),
        None => first_of(alias_list(t, k)),
    };
    match e {
        None => c1,
        Some(er) => match c1 {
            Some(c) => Some(c),
            None => match alias_canonical(er, k) {
                Some(c) => Some(c),
                None => first_of(alias_list(er, k)),
            },
        },
    }
}

/// The (code, aliases) entries are exactly the codes with an alias list.
pub open spec fn aliases_exact(
    entries: Seq<(Seq<char>, Seq<Seq<char>>)>,
    t: Seq<(Seq<char>, Seq<char>, bool)>,
    e: Option<Seq<(Seq<char>, Seq<char>, bool)>>,
) -> bool {
    &&& forall|i: int, j: int| 0 <= i < j < entries.len() ==> (#[trigger] entries[i]).0 != (#[trigger] entries[j]).0
    &&& forall|i: int| 0 <= i < entries.len() ==> final_list(t, e, (#[trigger] entries[i]).0) == Some(entries[i].1)
    &&& forall|k: Seq<char>| #[trigger] final_list(t, e, k) is Some ==> exists|i: int| 0 <= i < entries.len() && entries[i].0 == k
}

/// The (code, name) entries are exactly the codes with a canonical name.
pub open spec fn canonical_exact(
    entries: Seq<(Seq<char>, Seq<char>)>,
    t: Seq<(Seq<char>, Seq<char>, bool)>,
    e: Option<Seq<(Seq<char>, Seq<char>, bool)>>,
) -> bool {
    &&& forall|i: int, j: int| 0 <= i < j < entries.len() ==> (#[trigger] entries[i]).0 != (#[trigger] entries[j]).0
    &&& forall|i: int| 0 <= i < entries.len() ==> final_canonical(t, e, (#[trigger] entries[i]).0) == Some(entries[i].1)
    &&& forall|k: Seq<char>| #[trigger] final_canonical(t, e, k) is Some ==> exists|i: int| 0 <= i < entries.len() && entries[i].0 == k
}

/// The views of (code, aliases) entries.
pub open spec fn alias_entry_views(v: Seq<(String, Vec<String>)>) -> Seq<(Seq<char>, Seq<Seq<char>>)> {
    v.map_values(|x: (String, Vec<String>)| (x.0@, x.1.deep_view()))
}

/// The views of (code, name) entries.
pub open spec fn name_entry_views(v: Seq<(String, String)>) -> Seq<(Seq<char>, Seq<char>)> {
    v.map_values(|x: (String, String)| (x.0@, x.1@))
}

/// The final alias list and canonical name of code `k`.
fn final_entry(
    target: &AliasTable,
    en: &Option<AliasTable>,
    k: &Vec<char>,
    Ghost(t): Ghost<Seq<(Seq<char>, Seq<char>, bool)>>,
    Ghost(e): Ghost<Option<Seq<(Seq<char>, Seq<char>, bool)>>>,
) -> (r: (Option<Vec<String>>, Option<String>))
    requires
        target.holds(t),
        e is Some <==> en is Some,
        en matches Some(et) ==> et.holds(e->Some_0),
    ensures
        r.0.deep_view() == final_list(t, e, k@),
        r.1.deep_view() == final_canonical(t, e, k@),
{
    let (t_list, t_canon): (Option<Vec<String>>, Option<String>) = match target.find(k) {
        Some(x) => {
            proof {
                lemma_canonical_has_list(t, k@);
            }
            (Some(clone_strings(target.list(x))), match target.canonical(x) {
                Some(c) => Some(c.clone()),
                None => None,
            })
        },
        None => (None, None),
    };
    let c1: Option<String> = match t_canon {
        Some(c) => Some(c),
        None => match &t_list {
            Some(l) => if l.len() > 0 {
                Some(l[0].clone())
            } else {
                None
            },
            None => None,
        },
    };
    match en {
        None => (t_list, c1),
        Some(et) => {
            let ghost er = e->Some_0;
            let (e_list, e_canon): (Option<Vec<String>>, Option<String>) = match et.find(k) {
                Some(y) => (Some(clone_strings(et.list(y))), match et.canonical(y) {
                    Some(c) => Some(c.clone()),
                    None => None,
                }),
                None => (None, None),
            };
            let list: Option<Vec<String>> = match t_list {
                Some(l) => Some(l),
                None => match &e_canon {
                    Some(c) => {
                        let mut l: Vec<String> = Vec::new();
                        l.push(c.clone());
                        assert(l.deep_view() =~= seq![c@]);
                        Some(l)
                    },
                    None => None,
                },
            };
            let canon: Option<String> = match c1 {
                Some(c) => Some(c),
                None => match e_canon {
                    Some(c) => Some(c),
                    None => match &e_list {
                        Some(l) => if l.len() > 0 {
                            Some(l[0].clone())
                        } else {
                            None
                        },
                        None => None,
                    },
                },
            };
            (list, canon)
        },
    }
}

/// The codes of the target table, then those of the English table that the
/// target lacks.
fn union_codes(target: &AliasTable, en: &Option<AliasTable>) -> (r: Vec<Vec<char>>)
    requires
        target.wf(),
        strictly_sorted(target.codes()),
        en matches Some(et) ==> et.wf() && strictly_sorted(et.codes()),
    ensures
        forall|i: int, j: int| 0 <= i < j < r@.len() ==> (#[trigger] r@[i])@ != (#[trigger] r@[j])@,
        forall|k: Seq<char>|
            char_views(r@).contains(k) <==> (target.codes().contains(k) || (en matches Some(et)
                && et.codes().contains(k))),
{
    let mut out: Vec<Vec<char>> = Vec::new();
    let ghost tc = target.codes();
    let mut x: usize = 0;
    while x < target.len()
        invariant
            target.wf(),
            tc == target.codes(),
            strictly_sorted(tc),
            x <= tc.len(),
            char_views(out@) == tc.take(x as int),
        decreases tc.len() - x,
    {
        let ghost old = char_views(out@);
        out.push(target.code(x).clone());
        proof {
            assert(char_views(out@) =~= old.push(tc[x as int]));
            assert(tc.take(x + 1) =~= tc.take(x as int).push(tc[x as int]));
        }
        x = x + 1;
    }
    assert(tc.take(tc.len() as int) =~= tc);
    let ghost n1 = tc.len();
    proof {
        assert forall|i: int, j: int| 0 <= i < j < n1 implies tc[i] != tc[j] by {
            lemma_slots_distinct(char_views(target.keys@), target.order@, i, j);
        }
    }
    match en {
        None => {},
        Some(et) => {
            let ghost ec = et.codes();
            let mut y: usize = 0;
            while y < et.len()
                invariant
                    target.wf(),
                    et.wf(),
                    strictly_sorted(ec),
                    tc == target.codes(),
                    ec == et.codes(),
                    y <= ec.len(),
                    char_views(out@).len() >= n1,
                    char_views(out@).take(n1 as int) == tc,
                    forall|i: int, j: int| 0 <= i < j < n1 ==> tc[i] != tc[j],
                    forall|i: int| n1 <= i < char_views(out@).len() ==> !tc.contains(#[trigger] char_views(out@)[i]),
                    forall|i: int, j: int| n1 <= i < j < char_views(out@).len() ==> (#[trigger] char_views(out@)[i]) != (#[trigger] char_views(out@)[j]),
                    forall|i: int| n1 <= i < char_views(out@).len() ==> ec.take(y as int).contains(#[trigger] char_views(out@)[i]),
                    forall|w: int| 0 <= w < y ==> tc.contains(#[trigger] ec[w]) || char_views(out@).contains(ec[w]),
                decreases ec.len() - y,
            {
                let k = et.code(y);
                let ghost old = char_views(out@);
                if target.find(k).is_none() {
                    out.push(k.clone());
                    proof {
                        let o = char_views(out@);
                        assert(o =~= old.push(ec[y as int]));
                        assert(o.take(n1 as int) =~= old.take(n1 as int));
                        assert forall|i: int, j: int| n1 <= i < j < o.len() implies (#[trigger] o[i]) != (#[trigger] o[j]) by {
                            if j == o.len() - 1 {
                                assert(ec.take(y as int).contains(old[i]));
                                let w = choose|w: int| 0 <= w < y && ec.take(y as int)[w] == old[i];
                                lemma_slots_distinct(char_views(et.keys@), et.order@, w, y as int);
                            } else {
                                assert(o[i] == old[i] && o[j] == old[j]);
                            }
                        }
                        assert forall|i: int| n1 <= i < o.len() implies ec.take(y + 1).contains(#[trigger] o[i]) by {
                            if i == o.len() - 1 {
                                assert(ec.take(y + 1)[y as int] == o[i]);
                            } else {
                                assert(o[i] == old[i]);
                                let w = choose|w: int| 0 <= w < y && ec.take(y as int)[w] == old[i];
                                assert(ec.take(y + 1)[w] == old[i]);
                            }
                        }
                        assert forall|w: int| 0 <= w < y + 1 implies tc.contains(#[trigger] ec[w]) || o.contains(ec[w]) by {
                            if w == y {
                                assert(o[o.len() - 1] == ec[w]);
                            } else if !tc.contains(ec[w]) {
                                let i = choose|i: int| 0 <= i < old.len() && old[i] == ec[w];
                                assert(o[i] == ec[w]);
                            }
                        }
                        assert forall|i: int| n1 <= i < o.len() implies !tc.contains(#[trigger] o[i]) by {
                            if i < old.len() {
                                assert(o[i] == old[i]);
                            }
                        }
                    }
                } else {
                    proof {
                        let o = char_views(out@);
                        assert forall|i: int| n1 <= i < o.len() implies ec.take(y + 1).contains(#[trigger] o[i]) by {
                            let w = choose|w: int| 0 <= w < y && ec.take(y as int)[w] == o[i];
                            assert(ec.take(y + 1)[w] == o[i]);
                        }
                    }
                }
                y = y + 1;
            }
            proof {
                let o = char_views(out@);
                assert forall|k: Seq<char>| o.contains(k) implies tc.contains(k) || ec.contains(k) by {
                    let i = choose|i: int| 0 <= i < o.len() && o[i] == k;
                    if i < n1 {
                        assert(o.take(n1 as int)[i] == k);
                    } else {
                        let w = choose|w: int| 0 <= w < ec.len() && ec.take(ec.len() as int)[w] == k;
                        assert(ec[w] == k);
                    }
                }
                assert forall|k: Seq<char>| tc.contains(k) || ec.contains(k) implies o.contains(k) by {
                    if tc.contains(k) {
                        let i = choose|i: int| 0 <= i < tc.len() && tc[i] == k;
                        assert(o.take(n1 as int)[i] == k);
                        assert(o[i] == k);
                    } else {
                        let w = choose|w: int| 0 <= w < ec.len() && ec[w] == k;
                        assert(tc.contains(ec[w]) || o.contains(ec[w]));
                    }
                }
            }
        },
    }
    proof {
        let o = char_views(out@);
        assert forall|i: int, j: int| 0 <= i < j < out@.len() implies (#[trigger] out@[i])@ != (#[trigger] out@[j])@ by {
            assert(o[i] == out@[i]@ && o[j] == out@[j]@);
            if j < n1 {
                assert(o.take(n1 as int)[i] == tc[i]);
                assert(o.take(n1 as int)[j] == tc[j]);
            } else if i < n1 {
                assert(o.take(n1 as int)[i] == tc[i]);
                assert(tc.contains(o[i]));
            }
        }
        if en is None {
            assert forall|k: Seq<char>| o.contains(k) <==> tc.contains(k) by {
                if o.contains(k) {
                    let i = choose|i: int| 0 <= i < o.len() && o[i] == k;
                    assert(tc[i] == k);
                }
                if tc.contains(k) {
                    let i = choose|i: int| 0 <= i < tc.len() && tc[i] == k;
                    assert(o[i] == k);
                }
            }
        }
    }
    out
}

/// The alias dictionary of the target table, with the display cascade to the
/// English table when one is given.
fn combine_tables(
    target: &AliasTable,
    en: &Option<AliasTable>,
    Ghost(t): Ghost<Seq<(Seq<char>, Seq<char>, bool)>>,
    Ghost(e): Ghost<Option<Seq<(Seq<char>, Seq<char>, bool)>>>,
) -> (r: (Vec<(String, Vec<String>)>, Vec<(String, String)>))
    requires
        target.holds(t),
        e is Some <==> en is Some,
        en matches Some(et) ==> et.holds(e->Some_0),
    ensures
        aliases_exact(alias_entry_views(r.0@), t, e),
        canonical_exact(name_entry_views(r.1@), t, e),
{
    let codes = union_codes(target, en);
    let ghost u = char_views(codes@);
    let mut al: Vec<(String, Vec<String>)> = Vec::new();
    let mut ca: Vec<(String, String)> = Vec::new();
    let ghost mut idx: Seq<int> = Seq::empty();
    let ghost mut cidx: Seq<int> = Seq::empty();
    let mut i: usize = 0;
    while i < codes.len()
        invariant
            target.holds(t),
            e is Some <==> en is Some,
            en matches Some(et) ==> et.holds(e->Some_0),
            u == char_views(codes@),
            forall|a: int, b: int| 0 <= a < b < u.len() ==> (#[trigger] u[a]) != (#[trigger] u[b]),
            i <= u.len(),
            idx.len() == alias_entry_views(al@).len(),
            cidx.len() == name_entry_views(ca@).len(),
            forall|a: int| 0 <= a < idx.len() ==> 0 <= #[trigger] idx[a] < i,
            forall|a: int, b: int| 0 <= a < b < idx.len() ==> #[trigger] idx[a] < #[trigger] idx[b],
            forall|a: int| 0 <= a < cidx.len() ==> 0 <= #[trigger] cidx[a] < i,
            forall|a: int, b: int| 0 <= a < b < cidx.len() ==> #[trigger] cidx[a] < #[trigger] cidx[b],
            forall|a: int| 0 <= a < idx.len() ==> (#[trigger] alias_entry_views(al@)[a]).0 == u[idx[a]]
                && final_list(t, e, u[idx[a]]) == Some(alias_entry_views(al@)[a].1),
            forall|a: int| 0 <= a < cidx.len() ==> (#[trigger] name_entry_views(ca@)[a]).0 == u[cidx[a]]
                && final_canonical(t, e, u[cidx[a]]) == Some(name_entry_views(ca@)[a].1),
            forall|w: int| 0 <= w < i && final_list(t, e, #[trigger] u[w]) is Some ==> exists|a: int| 0 <= a < idx.len() && idx[a] == w,
            forall|w: int| 0 <= w < i && final_canonical(t, e, #[trigger] u[w]) is Some ==> exists|a: int| 0 <= a < cidx.len() && cidx[a] == w,
        decreases u.len() - i,
    {
        let (list, canon) = final_entry(target, en, &codes[i], Ghost(t), Ghost(e));
        let ks = string_of(&codes[i]);
        let ghost old_al = alias_entry_views(al@);
        let ghost old_ca = name_entry_views(ca@);
        let ghost old_idx = idx;
        let ghost old_cidx = cidx;
        match list {
            Some(l) => {
                al.push((ks.clone(), l));
                proof {
                    idx = idx.push(i as int);
                    assert(alias_entry_views(al@) =~= old_al.push((u[i as int], l.deep_view())));
                }
            },
            None => {},
        }
        match canon {
            Some(c) => {
                ca.push((ks, c));
                proof {
                    cidx = cidx.push(i as int);
                    assert(name_entry_views(ca@) =~= old_ca.push((u[i as int], c@)));
                }
            },
            None => {},
        }
        proof {
            let a2 = alias_entry_views(al@);
            let c2 = name_entry_views(ca@);
            assert forall|a: int| 0 <= a < idx.len() implies (#[trigger] a2[a]).0 == u[idx[a]]
                && final_list(t, e, u[idx[a]]) == Some(a2[a].1) by {
                if a < old_idx.len() {
                    assert(a2[a] == old_al[a]);
                    assert(idx[a] == old_idx[a]);
                }
            }
            assert forall|a: int| 0 <= a < cidx.len() implies (#[trigger] c2[a]).0 == u[cidx[a]]
                && final_canonical(t, e, u[cidx[a]]) == Some(c2[a].1) by {
                if a < old_cidx.len() {
                    assert(c2[a] == old_ca[a]);
                    assert(cidx[a] == old_cidx[a]);
                }
            }
            assert forall|w: int| 0 <= w < i + 1 && final_list(t, e, #[trigger] u[w]) is Some implies exists|a: int| 0 <= a < idx.len() && idx[a] == w by {
                if w < i {
                    let a = choose|a: int| 0 <= a < old_idx.len() && old_idx[a] == w;
                    assert(idx[a] == w);
                } else {
                    assert(idx[idx.len() - 1] == w);
                }
            }
            assert forall|w: int| 0 <= w < i + 1 && final_canonical(t, e, #[trigger] u[w]) is Some implies exists|a: int| 0 <= a < cidx.len() && cidx[a] == w by {
                if w < i {
                    let a = choose|a: int| 0 <= a < old_cidx.len() && old_cidx[a] == w;
                    assert(cidx[a] == w);
                } else {
                    assert(cidx[cidx.len() - 1] == w);
                }
            }
        }
        i = i + 1;
    }
    proof {
        let a2 = alias_entry_views(al@);
        let c2 = name_entry_views(ca@);
        assert forall|a: int, b: int| 0 <= a < b < a2.len() implies (#[trigger] a2[a]).0 != (#[trigger] a2[b]).0 by {
            assert(idx[a] < idx[b]);
        }
        assert forall|a: int, b: int| 0 <= a < b < c2.len() implies (#[trigger] c2[a]).0 != (#[trigger] c2[b]).0 by {
            assert(cidx[a] < cidx[b]);
        }
        assert forall|k: Seq<char>| #[trigger] final_list(t, e, k) is Some implies exists|a: int| 0 <= a < a2.len() && a2[a].0 == k by {
            lemma_final_in_codes(target, en, t, e, k);
            assert(u.contains(k));
            let w = choose|w: int| 0 <= w < u.len() && u[w] == k;
            assert(final_list(t, e, u[w]) is Some);
            let a = choose|a: int| 0 <= a < idx.len() && idx[a] == w;
            assert(a2[a].0 == u[idx[a]]);
            assert(a2[a].0 == k);
        }
        assert forall|k: Seq<char>| #[trigger] final_canonical(t, e, k) is Some implies exists|a: int| 0 <= a < c2.len() && c2[a].0 == k by {
            lemma_final_in_codes(target, en, t, e, k);
            assert(u.contains(k));
            let w = choose|w: int| 0 <= w < u.len() && u[w] == k;
            assert(final_canonical(t, e, u[w]) is Some);
            let a = choose|a: int| 0 <= a < cidx.len() && cidx[a] == w;
            assert(c2[a].0 == u[cidx[a]]);
            assert(c2[a].0 == k);
        }
    }
    (al, ca)
}

/// A code with a final list or name is a code of one of the tables.
proof fn lemma_final_in_codes(
    target: &AliasTable,
    en: &Option<AliasTable>,
    t: Seq<(Seq<char>, Seq<char>, bool)>,
    e: Option<Seq<(Seq<char>, Seq<char>, bool)>>,
    k: Seq<char>,
)
    requires
        target.holds(t),
        e is Some <==> en is Some,
        en matches Some(et) ==> et.holds(e->Some_0),
        final_list(t, e, k) is Some || final_canonical(t, e, k) is Some,
    ensures
        target.codes().contains(k) || (en matches Some(et) && et.codes().contains(k)),
{
}

/// `s` without its trailing `c` characters.
pub open spec fn trim_end_char(s: Seq<char>, c: char) -> Seq<char>
    decreases s.len(),
{
    if s.len() > 0 && s.last() == c {
        trim_end_char(s.drop_last(), c)
    } else {
        s
    }
}

pub(crate) fn trim_end_char_exec(v: &Vec<char>, c: char) -> (r: Vec<char>)
    ensures
        r@ == trim_end_char(v@, c),
{
    let mut n: usize = v.len();
    assert(v@.take(n as int) =~= v@);
    while n > 0 && v[n - 1] == c
        invariant
            n <= v.len(),
            trim_end_char(v@, c) == trim_end_char(v@.take(n as int), c),
        decreases n,
    {
        assert(v@.take(n as int).drop_last() =~= v@.take(n - 1));
        n = n - 1;
    }
    let mut out: Vec<char> = Vec::new();
    let mut i: usize = 0;
    while i < n
        invariant
            i <= n <= v.len(),
            out@ == v@.take(i as int),
        decreases n - i,
    {
        out.push(v[i]);
        assert(out@ =~= v@.take(i + 1));
        i = i + 1;
    }
    out
}

/// The code prefix filter: the prefix trimmed, without trailing `.` and then
/// without trailing `%`; with it, the pair (exact code, `LIKE` pattern).
pub open spec fn prefix_patterns_spec(prefix: Seq<char>) -> Option<(Seq<char>, Seq<char>)> {
    let t = trim_end_char(trim_end_char(trim(prefix), '.'), '%');
    if t.len() == 0 {
        None
    } else {
        Some((t, t + ".%"@))
    }
}

/// The exact code and `LIKE` pattern of a code prefix filter; `None` when
/// nothing is left of it.
pub fn prefix_patterns(prefix: &str) -> (r: Option<(String, String)>)
    ensures
        match r {
            Some((a, b)) => prefix_patterns_spec(prefix@) == Some((a@, b@)),
            None => prefix_patterns_spec(prefix@) is None,
        },
{
    let t0 = trim_chars(&chars_of(prefix));
    let t1 = trim_end_char_exec(&t0, '.');
    let t = trim_end_char_exec(&t1, '%');
    if t.len() == 0 {
        None
    } else {
        let mut pat = t.clone();
        extend_str(&mut pat, ".%");
        Some((string_of(&t), string_of(&pat)))
    }
}

/// The part of a locale before its first `-` or `_`.
pub open spec fn first_segment(s: Seq<char>) -> Seq<char>
    decreases s.len(),
{
    if s.len() == 0 {
        s
    } else if s[0] == '-' || s[0] == '_' {
        Seq::empty()
    } else {
        seq![s[0]] + first_segment(s.drop_first())
    }
}

fn first_segment_exec(v: &Vec<char>) -> (r: Vec<char>)
    ensures
        r@ == first_segment(v@),
{
    let mut out: Vec<char> = Vec::new();
    let mut i: usize = 0;
    assert(v@.skip(0) =~= v@);
    while i < v.len() && v[i] != '-' && v[i] != '_'
        invariant
            i <= v.len(),
            first_segment(v@) == out@ + first_segment(v@.skip(i as int)),
        decreases v.len() - i,
    {
        assert(v@.skip(i as int).drop_first() =~= v@.skip(i + 1));
        let ghost old = out@;
        out.push(v[i]);
        assert(out@ =~= old + seq![v[i as int]]);
        assert(old + (seq![v[i as int]] + first_segment(v@.skip(i + 1))) =~= out@ + first_segment(v@.skip(i + 1)));
        i = i + 1;
    }
    if i == v.len() {
        assert(v@.skip(i as int) =~= Seq::<char>::empty());
        assert(out@ + Seq::<char>::empty() =~= out@);
    } else {
        assert(out@ + Seq::<char>::empty() =~= out@);
    }
    out
}

/// ASCII letters folded to lower case.
pub open spec fn ascii_lower(c: char) -> char {
    if 'A' <= c && c <= 'Z' {
        ((c as u8) + 32) as char
    } else {
        c
    }
}

/// Equal up to ASCII case.
pub open spec fn eq_ignore_ascii_case(a: Seq<char>, b: Seq<char>) -> bool {
    a.len() == b.len() && forall|i: int| 0 <= i < a.len() ==> ascii_lower(#[trigger] a[i]) == ascii_lower(b[i])
}

fn ascii_lower_exec(c: char) -> (r: char)
    ensures
        r == ascii_lower(c),
{
    if 'A' <= c && c <= 'Z' {
        let b = c as u8;
        assert(0x41 <= b <= 0x5a);
        (b + 32) as char
    } else {
        c
    }
}

pub fn eq_ignore_ascii_case_exec(a: &Vec<char>, b: &Vec<char>) -> (r: bool)
    ensures
        r == eq_ignore_ascii_case(a@, b@),
{
    if a.len() != b.len() {
        return false;
    }
    let mut i: usize = 0;
    while i < a.len()
        invariant
            a.len() == b.len(),
            i <= a.len(),
            forall|k: int| 0 <= k < i ==> ascii_lower(#[trigger] a@[k]) == ascii_lower(b@[k]),
        decreases a.len() - i,
    {
        if ascii_lower_exec(a[i]) != ascii_lower_exec(b[i]) {
            return false;
        }
        i = i + 1;
    }
    true
}

/// A legacy alias row of locale `loc` serves the requested `locale`: equal
/// up to ASCII case, or the same language (the part before `-`/`_`); every
/// row serves an empty locale.
pub open spec fn legacy_row_kept(loc: Seq<char>, locale: Seq<char>) -> bool {
    ||| eq_ignore_ascii_case(loc, locale)
    ||| eq_ignore_ascii_case(first_segment(loc), first_segment(locale))
    ||| locale.len() == 0
}

/// Whether a legacy alias row of locale `loc` serves `locale`.
pub fn legacy_row_serves(loc: &str, locale: &str) -> (r: bool)
    ensures
        r == legacy_row_kept(loc@, locale@),
{
    let l = chars_of(loc);
    let target = chars_of(locale);
    eq_ignore_ascii_case_exec(&l, &target) || eq_ignore_ascii_case_exec(
        &first_segment_exec(&l),
        &first_segment_exec(&target),
    ) || target.len() == 0
}

/// The statement reading a language table, with or without the prefix filter.
pub open spec fn alias_sql_spec(table: Seq<char>, filtered: bool) -> Seq<char> {
    "SELECT tag_code, lemma, is_canonical FROM "@ + table + (if filtered {
        " WHERE (tag_code = ?1 OR tag_code LIKE ?2)"@
    } else {
        ""@
    }) + " ORDER BY is_canonical DESC, count DESC, lemma ASC"@
}

fn alias_sql(table: &str, filtered: bool) -> (r: String)
    ensures
        r@ == alias_sql_spec(table@, filtered),
{
    let mut v = chars_of("SELECT tag_code, lemma, is_canonical FROM ");
    extend_str(&mut v, table);
    if filtered {
        extend_str(&mut v, " WHERE (tag_code = ?1 OR tag_code LIKE ?2)");
    } else {
        extend_str(&mut v, "");
    }
    extend_str(&mut v, " ORDER BY is_canonical DESC, count DESC, lemma ASC");
    string_of(&v)
}

/// The statement that asks whether a table exists.
pub const TABLE_EXISTS_SQL: &'static str = "SELECT 1 FROM sqlite_master WHERE type = 'table' AND name = ?1";

/// The statement that asks whether the table `name` exists.
pub open spec fn table_exists_entry(name: Seq<char>) -> (Seq<char>, Seq<Seq<char>>) {
    (TABLE_EXISTS_SQL@, seq![name])
}

/// Whether a table of that name exists: one query, `TABLE_EXISTS_SQL` with
/// the name.
pub(crate) fn table_exists(db: &mut Db, name: &str) -> (r: bool)
    ensures
        final(db).log() == old(db).log().push(table_exists_entry(name@)),
{
    let args = [name];
    let r = db.select_exists(TABLE_EXISTS_SQL, &args);
    proof {
        assert(args@ =~= seq![name]);
        lemma_entry_one(TABLE_EXISTS_SQL@, name);
    }
    r
}

/// The legacy alias rows, all of them.
pub const LEGACY_ALIAS_SQL: &'static str = "SELECT tag_code, lemma, is_canonical, locale FROM tag_aliases ORDER BY is_canonical DESC, lemma ASC";

/// The legacy alias rows of a code and the codes under it.
pub const LEGACY_ALIAS_FILTERED_SQL: &'static str = "SELECT tag_code, lemma, is_canonical, locale FROM tag_aliases WHERE (tag_code = ?1 OR tag_code LIKE ?2) ORDER BY is_canonical DESC, lemma ASC";

/// The statement that reads the alias rows of a language table: with the
/// exact code and `LIKE` pattern as parameters when filtered.
pub open spec fn alias_rows_entry(table: Seq<char>, patterns: Option<(Seq<char>, Seq<char>)>) -> (
    Seq<char>,
    Seq<Seq<char>>,
) {
    match patterns {
        Some((exact, pat)) => (alias_sql_spec(table, true), seq![exact, pat]),
        None => (alias_sql_spec(table, false), Seq::empty()),
    }
}

/// The statement that reads the rows of the legacy table `tag_aliases`.
pub open spec fn legacy_rows_entry(patterns: Option<(Seq<char>, Seq<char>)>) -> (Seq<char>, Seq<Seq<char>>) {
    match patterns {
        Some((exact, pat)) => (LEGACY_ALIAS_FILTERED_SQL@, seq![exact, pat]),
        None => (LEGACY_ALIAS_SQL@, Seq::empty()),
    }
}

/// The code patterns of an optional prefix filter.
pub open spec fn filter_patterns(prefix_filter: Option<Seq<char>>) -> Option<(Seq<char>, Seq<char>)> {
    match prefix_filter {
        Some(p) => prefix_patterns_spec(p),
        None => None,
    }
}

/// The English statements that follow the target's: none for the English
/// table itself; otherwise whether the English table exists, then, when it
/// was found, its rows.
pub open spec fn english_queries(
    target: Seq<char>,
    patterns: Option<(Seq<char>, Seq<char>)>,
    q: Seq<(Seq<char>, Seq<Seq<char>>)>,
) -> bool {
    if target == "tag_aliases_en_US"@ {
        q.len() == 0
    } else {
        ||| q == seq![table_exists_entry("tag_aliases_en_US"@)]
        ||| q == seq![table_exists_entry("tag_aliases_en_US"@), alias_rows_entry("tag_aliases_en_US"@, patterns)]
    }
}

/// The statements of an alias-dictionary request, in order: whether the
/// target table exists; then either its rows, or whether the legacy table
/// exists and, when it does, its rows; then the English statements (see
/// `english_queries`) after any rows read.
pub open spec fn alias_queries(
    target: Seq<char>,
    patterns: Option<(Seq<char>, Seq<char>)>,
    q: Seq<(Seq<char>, Seq<Seq<char>>)>,
) -> bool {
    ||| q == seq![table_exists_entry(target), table_exists_entry("tag_aliases"@)]
    ||| q.len() >= 2 && q.take(2) == seq![table_exists_entry(target), alias_rows_entry(target, patterns)]
        && english_queries(target, patterns, q.skip(2))
    ||| q.len() >= 3 && q.take(3) == seq![
        table_exists_entry(target),
        table_exists_entry("tag_aliases"@),
        legacy_rows_entry(patterns),
    ] && english_queries(target, patterns, q.skip(3))
}

/// Aggregates the alias rows of a language table, filtered by the code
/// prefix when one is given.
fn load_alias_rows_from_table(
    db: &mut Db,
    table: &str,
    patterns: &Option<(String, String)>,
) -> (r: Result<(AliasTable, Ghost<Seq<(Seq<char>, Seq<char>, bool)>>), QueryError>)
    ensures
        final(db).log() == old(db).log().push(alias_rows_entry(table@, patterns.deep_view())),
        r matches Ok((t, rows)) ==> t.holds(rows@),
{
    let raw = match patterns {
        Some((exact, pat)) => {
            let text = alias_sql(table, true);
            let ex: &str = exact.as_str();
            let pt: &str = pat.as_str();
            let args = [ex, pt];
            let raw = db.select_alias_rows(text.as_str(), &args);
            proof {
                assert(args@ =~= seq![ex, pt]);
                lemma_entry_two(text@, ex, pt);
            }
            sql(raw)?
        },
        None => {
            let text = alias_sql(table, false);
            let args: [&str; 0] = [];
            let raw = db.select_alias_rows(text.as_str(), &args);
            proof {
                assert(args@ =~= Seq::<&str>::empty());
                lemma_entry_none(text@);
            }
            sql(raw)?
        },
    };
    let mut rows: Vec<(String, String, bool)> = Vec::new();
    let mut i: usize = 0;
    while i < raw.len()
        invariant
            db.log() == old(db).log().push(alias_rows_entry(table@, patterns.deep_view())),
        decreases raw.len() - i,
    {
        let code = required(&raw[i].0)?;
        let lemma = required(&raw[i].1)?;
        rows.push((code, lemma, canonical_flag(&raw[i].2)));
        i = i + 1;
    }
    let t = aggregate_aliases(&rows);
    Ok((t, Ghost(alias_row_views(rows@))))
}

/// Whether an `is_canonical` column read marks the canonical name: it is 1;
/// a value that could not be read counts as 0.
pub fn canonical_flag(v: &Option<i64>) -> (r: bool)
    ensures
        r == (*v == Some(1i64)),
{
    match v {
        Some(n) => *n == 1,
        None => false,
    }
}

/// A `locale` column read, empty when it could not be read.
pub fn locale_or_empty(v: &Option<String>) -> (r: &str)
    ensures
        r@ == match v {
            Some(l) => l@,
            None => ""@,
        },
{
    match v {
        Some(l) => l.as_str(),
        None => "",
    }
}

/// Aggregates the rows of the legacy mixed-language table `tag_aliases` that
/// serve `locale`, filtered by the code prefix when one is given.
fn load_legacy_alias_rows(
    db: &mut Db,
    locale: &str,
    patterns: &Option<(String, String)>,
) -> (r: Result<(AliasTable, Ghost<Seq<(Seq<char>, Seq<char>, bool)>>), QueryError>)
    ensures
        final(db).log() == old(db).log().push(legacy_rows_entry(patterns.deep_view())),
        r matches Ok((t, rows)) ==> t.holds(rows@),
{
    let raw = match patterns {
        Some((exact, pat)) => {
            let ex: &str = exact.as_str();
            let pt: &str = pat.as_str();
            let args = [ex, pt];
            let raw = db.select_legacy_alias_rows(LEGACY_ALIAS_FILTERED_SQL, &args);
            proof {
                assert(args@ =~= seq![ex, pt]);
                lemma_entry_two(LEGACY_ALIAS_FILTERED_SQL@, ex, pt);
            }
            sql(raw)?
        },
        None => {
            let args: [&str; 0] = [];
            let raw = db.select_legacy_alias_rows(LEGACY_ALIAS_SQL, &args);
            proof {
                assert(args@ =~= Seq::<&str>::empty());
                lemma_entry_none(LEGACY_ALIAS_SQL@);
            }
            sql(raw)?
        },
    };
    let mut rows: Vec<(String, String, bool)> = Vec::new();
    let mut i: usize = 0;
    while i < raw.len()
        invariant
            db.log() == old(db).log().push(legacy_rows_entry(patterns.deep_view())),
        decreases raw.len() - i,
    {
        let code = required(&raw[i].0)?;
        let lemma = required(&raw[i].1)?;
        if legacy_row_serves(locale_or_empty(&raw[i].3), locale) {
            rows.push((code, lemma, canonical_flag(&raw[i].2)));
        }
        i = i + 1;
    }
    let t = aggregate_aliases(&rows);
    Ok((t, Ghost(alias_row_views(rows@))))
}

/// The alias dictionary of one locale.
pub struct TaxonomyAliasesResponse {
    pub locale: String,
    /// Each code with its aliases, the canonical name first.
    pub aliases: Vec<(String, Vec<String>)>,
    /// Each code with its display (canonical) name.
    pub canonical_names: Vec<(String, String)>,
    pub total_tags: usize,
}

/// The first entry of `code`.
pub open spec fn entry_of<V>(entries: Seq<(Seq<char>, V)>, code: Seq<char>) -> Option<V>
    decreases entries.len(),
{
    if entries.len() == 0 {
        None
    } else if entries[0].0 == code {
        Some(entries[0].1)
    } else {
        entry_of(entries.drop_first(), code)
    }
}

impl TaxonomyAliasesResponse {
    /// The canonical name of a code.
    pub fn canonical_name(&self, code: &str) -> (r: Option<&String>)
        ensures
            match r {
                Some(n) => entry_of(name_entry_views(self.canonical_names@), code@) == Some(n@),
                None => entry_of(name_entry_views(self.canonical_names@), code@) is None,
            },
    {
        let ghost ev = name_entry_views(self.canonical_names@);
        let c = chars_of(code);
        let mut i: usize = 0;
        assert(ev.skip(0) =~= ev);
        while i < self.canonical_names.len()
            invariant
                ev == name_entry_views(self.canonical_names@),
                c@ == code@,
                i <= ev.len(),
                entry_of(ev, code@) == entry_of(ev.skip(i as int), code@),
            decreases ev.len() - i,
        {
            assert(ev.skip(i as int).drop_first() =~= ev.skip(i + 1));
            assert(ev.skip(i as int)[0] == ev[i as int]);
            assert(ev[i as int] == (self.canonical_names@[i as int].0@, self.canonical_names@[i as int].1@));
            assert(ev.skip(i as int).len() > 0);
            assert(entry_of(ev.skip(i as int), code@) == (if ev[i as int].0 == code@ {
                Some(ev[i as int].1)
            } else {
                entry_of(ev.skip(i + 1), code@)
            }));
            let key = chars_of(self.canonical_names[i].0.as_str());
            assert(key@ == ev[i as int].0);
            if chars_eq(&key, &c) {
                assert(ev[i as int].0 == code@);
                return Some(&self.canonical_names[i].1);
            }
            i = i + 1;
        }
        assert(ev.skip(i as int) =~= Seq::<(Seq<char>, Seq<char>)>::empty());
        None
    }

    /// The aliases of a code.
    pub fn aliases_of(&self, code: &str) -> (r: Option<&Vec<String>>)
        ensures
            match r {
                Some(l) => entry_of(alias_entry_views(self.aliases@), code@) == Some(l.deep_view()),
                None => entry_of(alias_entry_views(self.aliases@), code@) is None,
            },
    {
        let ghost ev = alias_entry_views(self.aliases@);
        let c = chars_of(code);
        let mut i: usize = 0;
        assert(ev.skip(0) =~= ev);
        while i < self.aliases.len()
            invariant
                ev == alias_entry_views(self.aliases@),
                c@ == code@,
                i <= ev.len(),
                entry_of(ev, code@) == entry_of(ev.skip(i as int), code@),
            decreases ev.len() - i,
        {
            assert(ev.skip(i as int).drop_first() =~= ev.skip(i + 1));
            assert(ev.skip(i as int)[0] == ev[i as int]);
            assert(ev[i as int] == (self.aliases@[i as int].0@, self.aliases@[i as int].1.deep_view()));
            assert(ev.skip(i as int).len() > 0);
            assert(entry_of(ev.skip(i as int), code@) == (if ev[i as int].0 == code@ {
                Some(ev[i as int].1)
            } else {
                entry_of(ev.skip(i + 1), code@)
            }));
            if chars_eq(&chars_of(self.aliases[i].0.as_str()), &c) {
                return Some(&self.aliases[i].1);
            }
            i = i + 1;
        }
        assert(ev.skip(i as int) =~= Seq::<(Seq<char>, Seq<Seq<char>>)>::empty());
        None
    }
}

/// The response is the alias dictionary of some target rows and, when the
/// target table is not the English one, possibly of English rows.
pub open spec fn aliases_response_of(resp: TaxonomyAliasesResponse, target_table: Seq<char>) -> bool {
    exists|t: Seq<(Seq<char>, Seq<char>, bool)>, e: Option<Seq<(Seq<char>, Seq<char>, bool)>>|
        #![trigger aliases_exact(alias_entry_views(resp.aliases@), t, e)]
        aliases_exact(alias_entry_views(resp.aliases@), t, e) && canonical_exact(
            name_entry_views(resp.canonical_names@),
            t,
            e,
        ) && (target_table == "tag_aliases_en_US"@ ==> e is None)
}

/// The alias dictionary of a locale (`target_table` is its language table,
/// as `omni_pro::resolve_tag_aliases_table` names it).
///
/// The language table is read when it exists, else the rows of the legacy
/// table `tag_aliases` that serve the locale; with neither, the dictionary
/// is empty. Rows may be limited to a code prefix. Every code lacking a
/// canonical name takes its first alias. Unless the target is the English
/// table, codes still lacking a name fall back to the English table
/// (`tag_aliases_en_US`): its canonical name (also as the only alias of a
/// code without aliases), else its first alias.
pub fn query_taxonomy_aliases(
    db: &mut Db,
    target_table: &str,
    locale: &str,
    prefix_filter: Option<&str>,
) -> (r: Result<TaxonomyAliasesResponse, QueryError>)
    ensures
        log_extends(old(db).log().push(table_exists_entry(target_table@)), final(db).log()),
        r is Ok ==> alias_queries(
            target_table@,
            filter_patterns(
                match prefix_filter {
                    Some(f) => Some(f@),
                    None => None,
                },
            ),
            final(db).log().skip(old(db).log().len() as int),
        ),
        r matches Ok(resp) ==> {
            &&& resp.locale@ == locale@
            &&& resp.total_tags == resp.aliases@.len()
            &&& aliases_response_of(resp, target_table@)
        },
{
    let ghost l0 = db.log();
    let ghost tgt = target_table@;
    let ghost en_name = "tag_aliases_en_US"@;
    let has_target = table_exists(db, target_table);
    let has_legacy = if !has_target {
        table_exists(db, "tag_aliases")
    } else {
        false
    };
    if !has_target && !has_legacy {
        let resp = TaxonomyAliasesResponse {
            locale: locale.to_owned(),
            aliases: Vec::new(),
            canonical_names: Vec::new(),
            total_tags: 0,
        };
        proof {
            let t = Seq::<(Seq<char>, Seq<char>, bool)>::empty();
            assert(alias_entry_views(resp.aliases@) =~= Seq::empty());
            assert(name_entry_views(resp.canonical_names@) =~= Seq::empty());
            assert(aliases_exact(alias_entry_views(resp.aliases@), t, None));
            assert(canonical_exact(name_entry_views(resp.canonical_names@), t, None));
            let q = seq![table_exists_entry(tgt), table_exists_entry("tag_aliases"@)];
            assert(db.log() =~= l0 + q);
            lemma_log_suffix(l0, q);
        }
        return Ok(resp);
    }
    let patterns = match prefix_filter {
        Some(p) => prefix_patterns(p),
        None => None,
    };
    let ghost pats = filter_patterns(
        match prefix_filter {
            Some(f) => Some(f@),
            None => None,
        },
    );
    proof {
        assert(patterns.deep_view() == pats);
    }
    let ghost q2 = if has_target {
        seq![table_exists_entry(tgt), alias_rows_entry(tgt, pats)]
    } else {
        seq![table_exists_entry(tgt), table_exists_entry("tag_aliases"@), legacy_rows_entry(pats)]
    };
    let loaded = if has_target {
        load_alias_rows_from_table(db, target_table, &patterns)
    } else {
        load_legacy_alias_rows(db, locale, &patterns)
    };
    proof {
        assert(db.log() =~= l0 + q2);
        lemma_log_suffix(l0, q2);
    }
    let (target, Ghost(t)) = loaded?;
    let is_en = chars_eq(&chars_of(target_table), &chars_of("tag_aliases_en_US"));
    let mut en: Option<AliasTable> = None;
    let ghost mut e: Option<Seq<(Seq<char>, Seq<char>, bool)>> = None;
    let ghost mut qe: Seq<(Seq<char>, Seq<Seq<char>>)> = Seq::empty();
    if !is_en {
        let has_en = table_exists(db, "tag_aliases_en_US");
        proof {
            qe = seq![table_exists_entry(en_name)];
        }
        if has_en {
            let loaded_en = load_alias_rows_from_table(db, "tag_aliases_en_US", &patterns);
            proof {
                qe = seq![table_exists_entry(en_name), alias_rows_entry(en_name, pats)];
            }
            match loaded_en {
                Ok((et, er)) => {
                    en = Some(et);
                    proof {
                        e = Some(er@);
                    }
                },
                Err(_) => {},
            }
        }
    }
    let (aliases, canonical_names) = combine_tables(&target, &en, Ghost(t), Ghost(e));
    let total_tags = aliases.len();
    let resp = TaxonomyAliasesResponse { locale: locale.to_owned(), aliases, canonical_names, total_tags };
    proof {
        assert(aliases_exact(alias_entry_views(resp.aliases@), t, e));
        let q = q2 + qe;
        assert(db.log() =~= l0 + q);
        lemma_log_suffix(l0, q);
        assert(q.take(q2.len() as int) =~= q2);
        assert(q.skip(q2.len() as int) =~= qe);
        assert(english_queries(tgt, pats, qe));
        assert(alias_queries(tgt, pats, q));
    }
    Ok(resp)
}

/// The display name of a tag: with an alias dictionary that lists the code,
/// its canonical name (else its first alias, else empty); otherwise the
/// tag's own name when it is not blank, else its code.
pub open spec fn display_name_spec(
    aliases: Option<(Seq<(Seq<char>, Seq<Seq<char>>)>, Seq<(Seq<char>, Seq<char>)>)>,
    code: Seq<char>,
    default_name: Seq<char>,
) -> Seq<char> {
    let fallback = if trim(default_name).len() > 0 {
        default_name
    } else {
        code
    };
    match aliases {
        Some((al, ca)) => match entry_of(al, code) {
            Some(list) => match entry_of(ca, code) {
                Some(c) => c,
                None => if list.len() > 0 {
                    list[0]
                } else {
                    ""@
                },
            },
            None => fallback,
        },
        None => fallback,
    }
}

/// The alias and name entries of an optional dictionary.
pub open spec fn dictionary_views(d: Option<TaxonomyAliasesResponse>) -> Option<
    (Seq<(Seq<char>, Seq<Seq<char>>)>, Seq<(Seq<char>, Seq<char>)>),
> {
    match d {
        Some(r) => Some((alias_entry_views(r.aliases@), name_entry_views(r.canonical_names@))),
        None => None,
    }
}

/// The display name of a tag (see `display_name_spec`).
pub fn display_name(aliases: &Option<TaxonomyAliasesResponse>, code: &str, default_name: &str) -> (r: String)
    ensures
        r@ == display_name_spec(dictionary_views(*aliases), code@, default_name@),
{
    let fallback = if trim_chars(&chars_of(default_name)).len() > 0 {
        default_name.to_owned()
    } else {
        code.to_owned()
    };
    match aliases {
        Some(resp) => match resp.aliases_of(code) {
            Some(list) => match resp.canonical_name(code) {
                Some(c) => c.clone(),
                None => if list.len() > 0 {
                    assert(list.deep_view()[0] == list@[0]@);
                    list[0].clone()
                } else {
                    let e = String::new();
                    assert(e@ =~= ""@) by {
                        reveal_strlit("");
                    }
                    e
                },
            },
            None => fallback,
        },
        None => fallback,
    }
}

/// Query of an alias dictionary request.
pub struct TaxonomyAliasesQuery {
    /// The configured language, then `zh-CN`, when absent.
    pub locale: Option<String>,
    /// Limits the dictionary to codes under this prefix.
    pub prefix: Option<String>,
}

impl Default for TaxonomyAliasesQuery {
    fn default() -> (r: TaxonomyAliasesQuery)
        ensures
            r.locale is None && r.prefix is None,
    {
        TaxonomyAliasesQuery { locale: None, prefix: None }
    }
}

impl TaxonomyAliasesQuery {
    /// The locale served: the requested one, else the configured language,
    /// else `zh-CN`.
    pub fn locale_or(&self, configured: Option<&str>) -> (r: String)
        ensures
            r@ == match self.locale {
                Some(l) => l@,
                None => match configured {
                    Some(c) => c@,
                    None => "zh-CN"@,
                },
            },
    {
        match &self.locale {
            Some(l) => l.clone(),
            None => match configured {
                Some(c) => c.to_owned(),
                None => "zh-CN".to_owned(),
            },
        }
    }
}

} // verus!
