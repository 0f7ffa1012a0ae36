//! A sorted index over a list of string keys: for each distinct key, the
//! position of its last occurrence, in increasing key order. It answers
//! "where was this key last written" by binary search, which is what a hash
//! map filled row by row (later rows overwriting earlier ones) answers.
use vstd::prelude::*;
use crate::tag_identity::{chars_lt, lemma_seq_lt_irreflexive, lemma_seq_lt_total, lemma_seq_lt_transitive, seq_lt, strictly_sorted};

verus! {

/// The character sequences of a list of character vectors.
pub open spec fn char_views(v: Seq<Vec<char>>) -> Seq<Seq<char>> {
    v.map_values(|x: Vec<char>| x@)
}

/// The keys at the given positions.
pub open spec fn keys_at(keys: Seq<Seq<char>>, order: Seq<usize>) -> Seq<Seq<char>> {
    order.map_values(|p: usize| keys[p as int])
}

/// The last position of `k` in `keys`, if it occurs.
pub open spec fn last_pos(keys: Seq<Seq<char>>, k: Seq<char>) -> Option<int>
    decreases keys.len(),
{
    if keys.len() == 0 {
        None
    } else if keys.last() == k {
        Some(keys.len() - 1)
    } else {
        last_pos(keys.drop_last(), k)
    }
}

/// No position after `p` and before `hi` holds the key at `p`.
pub open spec fn is_last_in(keys: Seq<Seq<char>>, p: int, hi: int) -> bool {
    forall|q: int| p < q < hi ==> keys[q] != keys[p]
}

/// `order` indexes the keys at positions `lo..hi`: increasing keys, each at
/// its last position in the range, every key of the range present.
pub open spec fn range_index(keys: Seq<Seq<char>>, order: Seq<usize>, lo: int, hi: int) -> bool {
    &&& strictly_sorted(keys_at(keys, order))
    &&& forall|i: int|
        0 <= i < order.len() ==> lo <= #[trigger] order[i] < hi && is_last_in(keys, order[i] as int, hi)
    &&& forall|q: int| #![trigger keys[q]] lo <= q < hi ==> keys_at(keys, order).contains(keys[q])
}

/// What `last_pos` says, position by position.
pub proof fn lemma_last_pos(keys: Seq<Seq<char>>, k: Seq<char>)
    ensures
        match last_pos(keys, k) {
            Some(p) => 0 <= p < keys.len() && keys[p] == k && is_last_in(keys, p, keys.len() as int),
            None => forall|q: int| 0 <= q < keys.len() ==> keys[q] != k,
        },
    decreases keys.len(),
{
    if keys.len() > 0 {
        lemma_last_pos(keys.drop_last(), k);
        if keys.last() != k {
            match last_pos(keys.drop_last(), k) {
                Some(p) => {
                    assert forall|q: int| p < q < keys.len() implies keys[q] != keys[p] by {
                        if q < keys.len() - 1 {
                            assert(keys.drop_last()[q] == keys[q]);
                        }
                    }
                },
                None => {
                    assert forall|q: int| 0 <= q < keys.len() implies keys[q] != k by {
                        if q < keys.len() - 1 {
                            assert(keys.drop_last()[q] == keys[q]);
                        }
                    }
                },
            }
        }
    }
}

/// A position that holds `k` and is the last to, is `last_pos`.
pub proof fn lemma_last_pos_is(keys: Seq<Seq<char>>, k: Seq<char>, p: int)
    requires
        0 <= p < keys.len(),
        keys[p] == k,
        is_last_in(keys, p, keys.len() as int),
    ensures
        last_pos(keys, k) == Some(p),
{
    lemma_last_pos(keys, k);
    match last_pos(keys, k) {
        Some(x) => {
            if x < p {
                assert(keys[p] != keys[x]);
            } else if x > p {
                assert(keys[x] != keys[p]);
            }
        },
        None => {
            assert(keys[p] != k);
        },
    }
}

proof fn lemma_lt_ne(a: Seq<char>, b: Seq<char>)
    requires
        seq_lt(a, b),
    ensures
        a != b,
{
    if a == b {
        lemma_seq_lt_irreflexive(a);
    }
}

/// Merges the indexes of `lo..mid` and `mid..hi` into the index of `lo..hi`;
/// on a key in both halves the right (later) position is kept.
fn merge(
    keys: &Vec<Vec<char>>,
    a: &Vec<usize>,
    b: &Vec<usize>,
    Ghost(lo): Ghost<int>,
    Ghost(mid): Ghost<int>,
    Ghost(hi): Ghost<int>,
) -> (r: Vec<usize>)
    requires
        0 <= lo <= mid <= hi <= keys.len(),
        range_index(char_views(keys@), a@, lo, mid),
        range_index(char_views(keys@), b@, mid, hi),
    ensures
        range_index(char_views(keys@), r@, lo, hi),
{
    let ghost kv = char_views(keys@);
    let mut out: Vec<usize> = Vec::new();
    let mut i: usize = 0;
    let mut j: usize = 0;
    while i < a.len() || j < b.len()
        invariant
            kv == char_views(keys@),
            0 <= lo <= mid <= hi <= kv.len(),
            range_index(kv, a@, lo, mid),
            range_index(kv, b@, mid, hi),
            i <= a.len(),
            j <= b.len(),
            strictly_sorted(keys_at(kv, out@)),
            forall|x: int|
                0 <= x < out.len() ==> lo <= #[trigger] out@[x] < hi && is_last_in(kv, out@[x] as int, hi),
            out.len() > 0 && i < a.len() ==> seq_lt(kv[out@.last() as int], kv[a@[i as int] as int]),
            out.len() > 0 && j < b.len() ==> seq_lt(kv[out@.last() as int], kv[b@[j as int] as int]),
            forall|x: int| 0 <= x < i ==> keys_at(kv, out@).contains(#[trigger] kv[a@[x] as int]),
            forall|y: int| 0 <= y < j ==> keys_at(kv, out@).contains(#[trigger] kv[b@[y] as int]),
            i < a.len() ==> forall|y: int| 0 <= y < j ==> seq_lt(#[trigger] kv[b@[y] as int], kv[a@[i as int] as int]),
        decreases a.len() + b.len() - i - j,
    {
        let ghost old_out = out@;
        let ghost old_i = i;
        let ghost old_j = j;
        let both = i < a.len() && j < b.len();
        let lt_ab = both && chars_lt(&keys[a[i]], &keys[b[j]]);
        let lt_ba = both && chars_lt(&keys[b[j]], &keys[a[i]]);
        // 0: take a[i]; 1: take b[j]; 2: take b[j] and drop a[i]
        let pick: u8 = if i == a.len() {
            1
        } else if j == b.len() {
            0
        } else if lt_ab {
            0
        } else if lt_ba {
            1
        } else {
            2
        };
        assert(pick == 0 && j < b.len() ==> seq_lt(kv[a@[i as int] as int], kv[b@[j as int] as int]));
        assert(pick == 1 && i < a.len() ==> seq_lt(kv[b@[j as int] as int], kv[a@[i as int] as int]));
        let e: usize = if pick == 0 { a[i] } else { b[j] };
        proof {
            if pick == 2 {
                if kv[a@[i as int] as int] != kv[b@[j as int] as int] {
                    lemma_seq_lt_total(kv[a@[i as int] as int], kv[b@[j as int] as int]);
                }
                assert(kv[a@[i as int] as int] == kv[b@[j as int] as int]);
            }
            // the new element is greater than everything already out
            if old_out.len() > 0 {
                assert forall|x: int| 0 <= x < old_out.len() implies seq_lt(
                    #[trigger] keys_at(kv, old_out)[x],
                    kv[e as int],
                ) by {
                    if x < old_out.len() - 1 {
                        assert(seq_lt(
                            keys_at(kv, old_out)[x],
                            keys_at(kv, old_out)[old_out.len() - 1],
                        ));
                        lemma_seq_lt_transitive(
                            keys_at(kv, old_out)[x],
                            kv[old_out.last() as int],
                            kv[e as int],
                        );
                    }
                }
            }
            // the new element is the last position of its key in lo..hi
            if pick == 0 {
                let p = e as int;
                let ka = kv[p];
                assert forall|q: int| p < q < hi implies kv[q] != kv[p] by {
                    if q >= mid {
                        assert(keys_at(kv, b@).contains(kv[q]));
                        let y = choose|y: int| 0 <= y < b@.len() && keys_at(kv, b@)[y] == kv[q];
                        if y < j {
                            lemma_lt_ne(kv[b@[y] as int], ka);
                        } else {
                            if y > j {
                                assert(seq_lt(keys_at(kv, b@)[j as int], keys_at(kv, b@)[y]));
                                lemma_seq_lt_transitive(ka, kv[b@[j as int] as int], kv[b@[y] as int]);
                            }
                            lemma_lt_ne(ka, kv[b@[y] as int]);
                        }
                    } else {
                        assert(0 <= i < a@.len());
                        assert(is_last_in(kv, a@[i as int] as int, mid));
                    }
                }
            } else {
                assert(is_last_in(kv, b@[j as int] as int, hi));
            }
        }
        out.push(e);
        if pick == 0 {
            i = i + 1;
        } else if pick == 1 {
            j = j + 1;
        } else {
            i = i + 1;
            j = j + 1;
        }
        proof {
            let ko = keys_at(kv, out@);
            assert(ko =~= keys_at(kv, old_out).push(kv[e as int]));
            assert(ko.last() == kv[e as int]);
            assert forall|x: int| 0 <= x < old_out.len() implies ko[x] == keys_at(kv, old_out)[x] by {}
            assert forall|x: int| 0 <= x < i implies ko.contains(#[trigger] kv[a@[x] as int]) by {
                if x < old_i {
                    let w = choose|w: int| 0 <= w < keys_at(kv, old_out).len() && keys_at(kv, old_out)[w] == kv[a@[x] as int];
                    assert(ko[w] == kv[a@[x] as int]);
                } else {
                    assert(ko[ko.len() - 1] == kv[a@[x] as int]);
                }
            }
            assert forall|y: int| 0 <= y < j implies ko.contains(#[trigger] kv[b@[y] as int]) by {
                if y < old_j {
                    let w = choose|w: int| 0 <= w < keys_at(kv, old_out).len() && keys_at(kv, old_out)[w] == kv[b@[y] as int];
                    assert(ko[w] == kv[b@[y] as int]);
                } else {
                    assert(ko[ko.len() - 1] == kv[b@[y] as int]);
                }
            }
            if i < a.len() {
                if i > old_i {
                    assert(seq_lt(keys_at(kv, a@)[old_i as int], keys_at(kv, a@)[i as int]));
                }
                assert forall|y: int| 0 <= y < j implies seq_lt(#[trigger] kv[b@[y] as int], kv[a@[i as int] as int]) by {
                    if pick == 0 {
                        assert(i == old_i + 1);
                        if old_i + 1 == i {
                            assert(seq_lt(keys_at(kv, a@)[old_i as int], keys_at(kv, a@)[i as int]));
                            lemma_seq_lt_transitive(kv[b@[y] as int], kv[a@[old_i as int] as int], kv[a@[i as int] as int]);
                        }
                    } else if pick == 1 {
                        if y < old_j {
                        } else {
                            assert(y == old_j);
                        }
                    } else {
                        assert(seq_lt(keys_at(kv, a@)[old_i as int], keys_at(kv, a@)[i as int]));
                        if y < old_j {
                            lemma_seq_lt_transitive(kv[b@[y] as int], kv[a@[old_i as int] as int], kv[a@[i as int] as int]);
                        } else {
                            assert(y == old_j);
                        }
                    }
                }
            }
            if j < b.len() && j > old_j {
                assert(seq_lt(keys_at(kv, b@)[old_j as int], keys_at(kv, b@)[j as int]));
            }
            if i < a.len() && pick == 1 {
                assert(i == old_i);
            }
            if j < b.len() && pick == 0 {
                assert(j == old_j);
            }
            assert(strictly_sorted(ko)) by {
                assert forall|x: int, w: int| 0 <= x < w < ko.len() implies seq_lt(#[trigger] ko[x], #[trigger] ko[w]) by {
                    if w == ko.len() - 1 {
                        assert(ko[x] == keys_at(kv, old_out)[x]);
                    } else {
                        assert(ko[x] == keys_at(kv, old_out)[x]);
                        assert(ko[w] == keys_at(kv, old_out)[w]);
                    }
                }
            }
        }
    }
    proof {
        let ko = keys_at(kv, out@);
        assert forall|q: int| #![trigger kv[q]] lo <= q < hi implies ko.contains(kv[q]) by {
            if q < mid {
                assert(keys_at(kv, a@).contains(kv[q]));
                let x = choose|x: int| 0 <= x < a@.len() && keys_at(kv, a@)[x] == kv[q];
                assert(ko.contains(kv[a@[x] as int]));
            } else {
                assert(keys_at(kv, b@).contains(kv[q]));
                let y = choose|y: int| 0 <= y < b@.len() && keys_at(kv, b@)[y] == kv[q];
                assert(ko.contains(kv[b@[y] as int]));
            }
        }
    }
    out
}

fn build_range(keys: &Vec<Vec<char>>, lo: usize, hi: usize) -> (r: Vec<usize>)
    requires
        lo <= hi <= keys.len(),
    ensures
        range_index(char_views(keys@), r@, lo as int, hi as int),
    decreases hi - lo,
{
    let ghost kv = char_views(keys@);
    if hi - lo == 0 {
        Vec::new()
    } else if hi - lo == 1 {
        let mut r: Vec<usize> = Vec::new();
        r.push(lo);
        proof {
            assert(keys_at(kv, r@) =~= seq![kv[lo as int]]);
            assert(keys_at(kv, r@)[0] == kv[lo as int]);
        }
        r
    } else {
        let mid = lo + (hi - lo) / 2;
        let a = build_range(keys, lo, mid);
        let b = build_range(keys, mid, hi);
        merge(keys, &a, &b, Ghost(lo as int), Ghost(mid as int), Ghost(hi as int))
    }
}

/// The sorted index of a list of keys: the last position of each distinct
/// key, in increasing key order.
pub fn index_keys(keys: &Vec<Vec<char>>) -> (r: Vec<usize>)
    ensures
        range_index(char_views(keys@), r@, 0, keys@.len() as int),
{
    build_range(keys, 0, keys.len())
}

/// The last position of `k` among the keys, found by binary search in their
/// index.
pub fn find_key(keys: &Vec<Vec<char>>, order: &Vec<usize>, k: &[char]) -> (r: Option<usize>)
    requires
        range_index(char_views(keys@), order@, 0, keys@.len() as int),
    ensures
        match r {
            Some(p) => last_pos(char_views(keys@), k@) == Some(p as int),
            None => last_pos(char_views(keys@), k@) is None,
        },
{
    let ghost kv = char_views(keys@);
    let ghost ko = keys_at(kv, order@);
    let mut lo: usize = 0;
    let mut hi: usize = order.len();
    while lo < hi
        invariant
            kv == char_views(keys@),
            ko == keys_at(kv, order@),
            range_index(kv, order@, 0, keys@.len() as int),
            lo <= hi <= order.len(),
            forall|x: int| 0 <= x < lo ==> seq_lt(#[trigger] ko[x], k@),
            forall|x: int| hi <= x < order.len() ==> seq_lt(k@, #[trigger] ko[x]),
        decreases hi - lo,
    {
        let mid = lo + (hi - lo) / 2;
        let p = order[mid];
        let below = chars_lt(&keys[p], k);
        if below {
            proof {
                assert forall|x: int| 0 <= x <= mid implies seq_lt(#[trigger] ko[x], k@) by {
                    if x < mid {
                        assert(seq_lt(ko[x], ko[mid as int]));
                        lemma_seq_lt_transitive(ko[x], ko[mid as int], k@);
                    }
                }
            }
            lo = mid + 1;
        } else if chars_lt(k, &keys[p]) {
            proof {
                assert forall|x: int| mid <= x < order.len() implies seq_lt(k@, #[trigger] ko[x]) by {
                    if x > mid {
                        assert(seq_lt(ko[mid as int], ko[x]));
                        lemma_seq_lt_transitive(k@, ko[mid as int], ko[x]);
                    }
                }
            }
            hi = mid;
        } else {
            proof {
                if kv[p as int] != k@ {
                    lemma_seq_lt_total(kv[p as int], k@);
                }
                lemma_last_pos_is(kv, k@, p as int);
            }
            return Some(p);
        }
    }
    proof {
        lemma_last_pos(kv, k@);
        if let Some(q) = last_pos(kv, k@) {
            assert(ko.contains(kv[q]));
            let x = choose|x: int| 0 <= x < ko.len() && ko[x] == kv[q];
            if x < lo {
                lemma_lt_ne(ko[x], k@);
            } else {
                lemma_lt_ne(k@, ko[x]);
            }
        }
    }
    None
}

/// The slot of `k` in the index: the position in `order` whose key is `k`.
pub fn find_slot(keys: &Vec<Vec<char>>, order: &Vec<usize>, k: &[char]) -> (r: Option<usize>)
    requires
        range_index(char_views(keys@), order@, 0, keys@.len() as int),
    ensures
        match r {
            Some(x) => x < order@.len() && keys_at(char_views(keys@), order@)[x as int] == k@,
            None => !keys_at(char_views(keys@), order@).contains(k@),
        },
{
    let ghost kv = char_views(keys@);
    let ghost ko = keys_at(kv, order@);
    let mut lo: usize = 0;
    let mut hi: usize = order.len();
    while lo < hi
        invariant
            kv == char_views(keys@),
            ko == keys_at(kv, order@),
            range_index(kv, order@, 0, keys@.len() as int),
            lo <= hi <= order.len(),
            forall|x: int| 0 <= x < lo ==> seq_lt(#[trigger] ko[x], k@),
            forall|x: int| hi <= x < order.len() ==> seq_lt(k@, #[trigger] ko[x]),
        decreases hi - lo,
    {
        let mid = lo + (hi - lo) / 2;
        let p = order[mid];
        if chars_lt(&keys[p], k) {
            proof {
                assert forall|x: int| 0 <= x <= mid implies seq_lt(#[trigger] ko[x], k@) by {
                    if x < mid {
                        assert(seq_lt(ko[x], ko[mid as int]));
                        lemma_seq_lt_transitive(ko[x], ko[mid as int], k@);
                    }
                }
            }
            lo = mid + 1;
        } else if chars_lt(k, &keys[p]) {
            proof {
                assert forall|x: int| mid <= x < order.len() implies seq_lt(k@, #[trigger] ko[x]) by {
                    if x > mid {
                        assert(seq_lt(ko[mid as int], ko[x]));
                        lemma_seq_lt_transitive(k@, ko[mid as int], ko[x]);
                    }
                }
            }
            hi = mid;
        } else {
            proof {
                if kv[p as int] != k@ {
                    lemma_seq_lt_total(kv[p as int], k@);
                }
            }
            return Some(mid);
        }
    }
    proof {
        if ko.contains(k@) {
            let x = choose|x: int| 0 <= x < ko.len() && ko[x] == k@;
            if x < lo {
                lemma_lt_ne(ko[x], k@);
            } else {
                lemma_lt_ne(k@, ko[x]);
            }
        }
    }
    None
}

/// Distinct slots hold distinct keys.
pub proof fn lemma_slots_distinct(keys: Seq<Seq<char>>, order: Seq<usize>, x: int, y: int)
    requires
        strictly_sorted(keys_at(keys, order)),
        0 <= x < order.len(),
        0 <= y < order.len(),
        x != y,
    ensures
        keys_at(keys, order)[x] != keys_at(keys, order)[y],
{
    let ko = keys_at(keys, order);
    if x < y {
        assert(seq_lt(ko[x], ko[y]));
        lemma_lt_ne(ko[x], ko[y]);
    } else {
        assert(seq_lt(ko[y], ko[x]));
        lemma_lt_ne(ko[y], ko[x]);
    }
}

} // verus!
