//! Lists of strings that keep the first occurrence of each value, in order.
use vstd::prelude::*;

verus! {

/// The list without repeats: each value at its first position, in order.
pub open spec fn dedup_seq(s: Seq<Seq<char>>) -> Seq<Seq<char>>
    decreases s.len(),
{
    if s.len() == 0 {
        Seq::empty()
    } else {
        let d = dedup_seq(s.drop_last());
        if d.contains(s.last()) {
            d
        } else {
            d.push(s.last())
        }
    }
}

/// No value occurs twice.
pub open spec fn no_repeats(s: Seq<Seq<char>>) -> bool {
    forall|i: int, j: int| 0 <= i < j < s.len() ==> s[i] != s[j]
}

/// Whether a list of strings holds a value.
pub fn contains_string(v: &Vec<String>, s: &String) -> (r: bool)
    ensures
        r == v.deep_view().contains(s@),
{
    let mut i: usize = 0;
    while i < v.len()
        invariant
            i <= v.len(),
            forall|k: int| 0 <= k < i ==> v.deep_view()[k] != s@,
        decreases v.len() - i,
    {
        if v[i] == *s {
            assert(v.deep_view()[i as int] == s@);
            return true;
        }
        i = i + 1;
    }
    proof {
        if v.deep_view().contains(s@) {
            let k = choose|k: int| 0 <= k < v.deep_view().len() && v.deep_view()[k] == s@;
            assert(v.deep_view()[k] == s@);
        }
    }
    false
}

/// Appends `s` unless the list already holds it.
pub fn push_unique(v: &mut Vec<String>, s: String)
    ensures
        final(v).deep_view() == (if old(v).deep_view().contains(s@) {
            old(v).deep_view()
        } else {
            old(v).deep_view().push(s@)
        }),
{
    if !contains_string(v, &s) {
        v.push(s);
        assert(final(v).deep_view() =~= old(v).deep_view().push(s@));
    }
}

/// A list holds a value exactly when its front or its last element does.
pub proof fn lemma_contains_drop_last(s: Seq<Seq<char>>, x: Seq<char>)
    requires
        s.len() > 0,
    ensures
        s.contains(x) <==> (s.drop_last().contains(x) || x == s.last()),
{
    if s.contains(x) && x != s.last() {
        let k = choose|k: int| 0 <= k < s.len() && s[k] == x;
        assert(k != s.len() - 1);
        assert(s.drop_last()[k] == x);
    }
    if s.drop_last().contains(x) {
        let k = choose|k: int| 0 <= k < s.drop_last().len() && s.drop_last()[k] == x;
        assert(s[k] == x);
    }
    if x == s.last() {
        assert(s[s.len() - 1] == x);
    }
}

/// The deduplicated list has no repeats and holds the same values.
pub proof fn lemma_dedup_no_repeats(s: Seq<Seq<char>>)
    ensures
        no_repeats(dedup_seq(s)),
        forall|x: Seq<char>| #[trigger] dedup_seq(s).contains(x) <==> s.contains(x),
    decreases s.len(),
{
    if s.len() > 0 {
        lemma_dedup_no_repeats(s.drop_last());
        let d = dedup_seq(s.drop_last());
        assert forall|x: Seq<char>| #[trigger] dedup_seq(s).contains(x) <==> s.contains(x) by {
            lemma_contains_drop_last(s, x);
            if !d.contains(s.last()) {
                lemma_contains_drop_last(d.push(s.last()), x);
                assert(d.push(s.last()).drop_last() =~= d);
            }
        }
        if !d.contains(s.last()) {
            let e = d.push(s.last());
            assert forall|i: int, j: int| 0 <= i < j < e.len() implies e[i] != e[j] by {
                if j == d.len() {
                    assert(e[i] == d[i]);
                    assert(d.contains(d[i]));
                }
            }
        }
    }
}

/// The list with repeats removed, first occurrences kept in order.
pub fn dedup_keep_first(items: &Vec<String>) -> (r: Vec<String>)
    ensures
        r.deep_view() == dedup_seq(items.deep_view()),
{
    let mut out: Vec<String> = Vec::new();
    let mut i: usize = 0;
    while i < items.len()
        invariant
            i <= items.len(),
            out.deep_view() == dedup_seq(items.deep_view().take(i as int)),
        decreases items.len() - i,
    {
        let s = items[i].clone();
        proof {
            let t = items.deep_view().take(i + 1);
            assert(t.drop_last() =~= items.deep_view().take(i as int));
            assert(t.last() == s@);
        }
        push_unique(&mut out, s);
        i = i + 1;
    }
    assert(items.deep_view().take(items.len() as int) =~= items.deep_view());
    out
}

/// A copy of a list of strings.
pub fn clone_strings(v: &Vec<String>) -> (r: Vec<String>)
    ensures
        r.deep_view() == v.deep_view(),
{
    let mut out: Vec<String> = Vec::new();
    let mut i: usize = 0;
    while i < v.len()
        invariant
            i <= v.len(),
            out.deep_view() == v.deep_view().take(i as int),
        decreases v.len() - i,
    {
        let ghost old = out.deep_view();
        out.push(v[i].clone());
        proof {
            assert(out.deep_view() =~= old.push(v@[i as int]@));
            assert(v.deep_view().take(i + 1) =~= v.deep_view().take(i as int).push(v@[i as int]@));
        }
        i = i + 1;
    }
    assert(v.deep_view().take(v.len() as int) =~= v.deep_view());
    out
}

} // verus!
