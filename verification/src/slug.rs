//! ASCII slugs of free text, and the tag codes derived from them.
use vstd::prelude::*;
use crate::hashing::{content_hash8, content_hash8_spec};
use crate::text::{
    char_is_ascii_alnum, chars_of, extend_chars, extend_str, is_ascii_alnum, string_of, trim,
    trim_char, trim_chars,
};
use crate::unicode::{lowercase_chars, unicode_lowercase};

verus! {

/// Keeps ASCII letters and digits, and folds each run of other characters
/// that follows a kept character into a single `_`.
pub open spec fn slug_fold(s: Seq<char>) -> Seq<char>
    decreases s.len(),
{
    if s.len() == 0 {
        Seq::empty()
    } else {
        let prev = slug_fold(s.drop_last());
        let c = s.last();
        if is_ascii_alnum(c) {
            prev.push(c)
        } else if prev.len() == 0 || prev.last() == '_' {
            prev
        } else {
            prev.push('_')
        }
    }
}

/// The slug of a raw string: trimmed, lower-cased, folded, with surrounding `_` removed.
pub open spec fn slug_spec(raw: Seq<char>) -> Seq<char> {
    trim_char(slug_fold(unicode_lowercase(trim(raw))), '_')
}

/// The builtin code of an English canonical name: `builtin.{slug}`, or
/// `builtin.h_{hash8}` when the slug is empty.
pub open spec fn en_builtin_code_spec(en_name: Seq<char>) -> Seq<char> {
    let t = trim(en_name);
    let sl = slug_spec(t);
    if sl.len() == 0 {
        "builtin.h_"@ + content_hash8_spec(t)
    } else {
        "builtin."@ + sl
    }
}

/// The open-set extension code of a tag: `_ext.{slug}.{hash8}`, or
/// `_ext.{hash8}` when the slug is empty. The hash is over the trimmed tag.
pub open spec fn ext_tag_code_spec(tag: Seq<char>) -> Seq<char> {
    let t = trim(tag);
    let h = content_hash8_spec(t);
    let sl = slug_spec(t);
    if sl.len() == 0 {
        "_ext."@ + h
    } else {
        "_ext."@ + sl + "."@ + h
    }
}

/// `slug_fold` on a character sequence.
pub fn slug_fold_exec(v: &[char]) -> (r: Vec<char>)
    ensures
        r@ == slug_fold(v@),
{
    let mut out: Vec<char> = Vec::new();
    let mut i: usize = 0;
    while i < v.len()
        invariant
            i <= v@.len(),
            out@ == slug_fold(v@.take(i as int)),
        decreases v.len() - i,
    {
        let ch = v[i];
        proof {
            assert(v@.take(i + 1).drop_last() =~= v@.take(i as int));
        }
        if char_is_ascii_alnum(ch) {
            out.push(ch);
        } else if out.len() > 0 && out[out.len() - 1] != '_' {
            out.push('_');
        }
        i = i + 1;
    }
    assert(v@.take(v@.len() as int) =~= v@);
    out
}

proof fn lemma_trim_char_first(s: Seq<char>, c: char, i: int)
    requires
        0 <= i < s.len(),
        s[i] == c,
    ensures
        trim_char(s.skip(i), c) == trim_char(s.skip(i + 1), c),
{
    assert(s.skip(i).drop_first() =~= s.skip(i + 1));
}

proof fn lemma_trim_char_last(s: Seq<char>, c: char, k: int)
    requires
        1 < k <= s.len(),
        s[0] != c,
        s[k - 1] == c,
    ensures
        trim_char(s.take(k), c) == trim_char(s.take(k - 1), c),
{
    assert(s.take(k).drop_last() =~= s.take(k - 1));
}

/// `trim_char` on a character sequence.
pub fn trim_char_exec(v: &[char], c: char) -> (r: Vec<char>)
    ensures
        r@ == trim_char(v@, c),
{
    let n = v.len();
    let mut i: usize = 0;
    assert(v@.skip(0) =~= v@);
    while i < n && v[i] == c
        invariant
            n == v@.len(),
            i <= n,
            trim_char(v@, c) == trim_char(v@.skip(i as int), c),
        decreases n - i,
    {
        proof {
            lemma_trim_char_first(v@, c, i as int);
        }
        i = i + 1;
    }
    let ghost rest = v@.skip(i as int);
    assert(rest.take(rest.len() as int) =~= rest);
    let mut j: usize = n;
    while j - i > 1 && v[j - 1] == c
        invariant
            n == v@.len(),
            i <= j <= n,
            i < n ==> i < j,
            rest == v@.skip(i as int),
            i < n ==> rest[0] != c,
            trim_char(rest, c) == trim_char(rest.take(j - i), c),
        decreases j,
    {
        proof {
            assert(rest[j - i - 1] == v@[j - 1]);
            lemma_trim_char_last(rest, c, j - i);
        }
        j = j - 1;
    }
    proof {
        let t = rest.take(j - i);
        if t.len() > 0 {
            assert(t[0] != c);
            assert(t.last() != c);
        }
        assert(trim_char(t, c) == t);
        assert(t =~= v@.subrange(i as int, j as int));
    }
    crate::text::slice_chars(v, i, j)
}

/// The slug of a raw string (see `slug_spec`), on characters.
pub fn slug_chars(raw: &[char]) -> (r: Vec<char>)
    ensures
        r@ == slug_spec(raw@),
{
    let t = trim_chars(raw);
    let lower = lowercase_chars(&t);
    let folded = slug_fold_exec(&lower);
    trim_char_exec(&folded, '_')
}

/// The ASCII slug of an English name (trimmed, lower-cased, non-alphanumeric
/// runs folded to `_`, surrounding `_` removed).
pub fn sanitize_en_slug(raw: &str) -> (r: String)
    ensures
        r@ == slug_spec(raw@),
{
    let v = chars_of(raw);
    let s = slug_chars(&v);
    string_of(&s)
}

/// Derives the builtin code of an English canonical name:
/// `builtin.{slug}`, or `builtin.h_{hash8}` when the slug is empty.
pub fn en_builtin_code(en_name: &str) -> (r: String)
    ensures
        r@ == en_builtin_code_spec(en_name@),
{
    let raw = chars_of(en_name);
    let trimmed = trim_chars(&raw);
    let sl = slug_chars(&trimmed);
    let mut out: Vec<char> = Vec::new();
    if sl.len() == 0 {
        extend_str(&mut out, "builtin.h_");
        let ts = string_of(&trimmed);
        let hash = content_hash8(ts.as_str());
        extend_str(&mut out, hash.as_str());
    } else {
        extend_str(&mut out, "builtin.");
        extend_chars(&mut out, &sl);
    }
    string_of(&out)
}

/// Derives the open-set extension code of a tag:
/// `_ext.{slug}.{hash8}`, or `_ext.{hash8}` when the slug is empty.
pub fn derive_ext_tag_code(tag: &str) -> (r: String)
    ensures
        r@ == ext_tag_code_spec(tag@),
        content_hash8_spec(trim(tag@)).len() == 8,
        forall|i: int| 0 <= i < 8 ==> crate::hashing::is_lower_hex_digit(#[trigger] content_hash8_spec(trim(tag@))[i]),
{
    let raw = chars_of(tag);
    let clean = trim_chars(&raw);
    let cs = string_of(&clean);
    let hash8 = content_hash8(cs.as_str());
    let sl = slug_chars(&clean);
    let mut out: Vec<char> = Vec::new();
    extend_str(&mut out, "_ext.");
    if sl.len() == 0 {
        extend_str(&mut out, hash8.as_str());
    } else {
        extend_chars(&mut out, &sl);
        extend_str(&mut out, ".");
        extend_str(&mut out, hash8.as_str());
    }
    string_of(&out)
}

/// An extension code does not depend on the spaces around the tag: the
/// code of the trimmed tag is the code of the tag.
pub proof fn law_ext_code_ignores_surrounding_space(tag: Seq<char>)
    ensures
        ext_tag_code_spec(trim(tag)) == ext_tag_code_spec(tag),
{
    crate::text::lemma_trim_idempotent(tag);
}

proof fn lemma_slug_fold_chars(s: Seq<char>)
    ensures
        forall|i: int| 0 <= i < slug_fold(s).len() ==> is_ascii_alnum(#[trigger] slug_fold(s)[i]) || slug_fold(s)[i] == '_',
    decreases s.len(),
{
    if s.len() > 0 {
        lemma_slug_fold_chars(s.drop_last());
        let prev = slug_fold(s.drop_last());
        let f = slug_fold(s);
        assert forall|i: int| 0 <= i < f.len() implies is_ascii_alnum(#[trigger] f[i]) || f[i] == '_' by {
            if i < prev.len() {
                assert(f[i] == prev[i]);
            }
        }
    }
}

proof fn lemma_trim_char_chars(s: Seq<char>, c: char)
    ensures
        forall|i: int| 0 <= i < trim_char(s, c).len() ==> s.contains(#[trigger] trim_char(s, c)[i]),
        trim_char(s, c).len() > 0 ==> trim_char(s, c).last() != c,
    decreases s.len(),
{
    if s.len() > 0 && s[0] == c {
        lemma_trim_char_chars(s.drop_first(), c);
        let t = trim_char(s, c);
        assert forall|i: int| 0 <= i < t.len() implies s.contains(#[trigger] t[i]) by {
            let j = choose|j: int| 0 <= j < s.drop_first().len() && s.drop_first()[j] == t[i];
            assert(s[j + 1] == t[i]);
        }
    } else if s.len() > 0 && s.last() == c {
        lemma_trim_char_chars(s.drop_last(), c);
        let t = trim_char(s, c);
        assert forall|i: int| 0 <= i < t.len() implies s.contains(#[trigger] t[i]) by {
            let j = choose|j: int| 0 <= j < s.drop_last().len() && s.drop_last()[j] == t[i];
            assert(s[j] == t[i]);
        }
    } else {
        assert forall|i: int| 0 <= i < s.len() implies s.contains(#[trigger] s[i]) by {}
    }
}

/// A builtin code has no surrounding whitespace.
pub proof fn lemma_builtin_code_trimmed(en_name: Seq<char>)
    ensures
        trim(en_builtin_code_spec(en_name)) == en_builtin_code_spec(en_name),
{
    let c = en_builtin_code_spec(en_name);
    let t = trim(en_name);
    let sl = slug_spec(t);
    reveal_strlit("builtin.");
    reveal_strlit("builtin.h_");
    assert(c.len() > 0 && c[0] == 'b');
    assert(!crate::text::is_ws(c[0]));
    assert(crate::text::trim_start(c) == c);
    if sl.len() == 0 {
        let h = content_hash8_spec(t);
        if h.len() > 0 {
            let b = crate::hashing::sha256(vstd::utf8::encode_utf8(t));
            crate::hashing::lemma_hex_lower_digits(b);
            assert(h[h.len() - 1] == crate::text::hex_lower(b)[h.len() - 1]);
            assert(crate::hashing::is_lower_hex_digit(h[h.len() - 1]));
            assert(c.last() == h.last());
        } else {
            assert(c.last() == '_');
        }
    } else {
        let f = slug_fold(unicode_lowercase(trim(t)));
        lemma_slug_fold_chars(unicode_lowercase(trim(t)));
        lemma_trim_char_chars(f, '_');
        assert(f.contains(sl.last()));
        assert(c.last() == sl.last());
        assert(is_ascii_alnum(c.last()));
    }
    assert(!crate::text::is_ws(c.last()));
    assert(crate::text::trim_end(c) == c);
}

} // verus!
