//! Unicode normalization and case mapping, and the lemma normal form built on them.
use unicode_normalization::UnicodeNormalization;
use vstd::prelude::*;
use crate::text::{chars_of, string_of, trim, trim_str};

verus! {

/// The NFKC normal form of a character sequence, as the
/// `unicode-normalization` crate computes it.
pub uninterp spec fn nfkc(s: Seq<char>) -> Seq<char>;

/// Whether every character is ASCII.
pub open spec fn all_ascii(s: Seq<char>) -> bool {
    forall|i: int| 0 <= i < s.len() ==> (s[i] as u32) < 128
}

/// The ASCII lower-case mapping of a character: `A`..=`Z` become
/// `a`..=`z`, every other character stays.
pub open spec fn ascii_lower_char(c: char) -> char {
    if 'A' <= c && c <= 'Z' {
        ((c as u32) + 32) as char
    } else {
        c
    }
}

/// The ASCII lower-case mapping of a string, character by character.
pub open spec fn ascii_lowercase(s: Seq<char>) -> Seq<char> {
    s.map_values(|c: char| ascii_lower_char(c))
}

/// What `str::to_lowercase` makes of a string that holds a character
/// beyond ASCII.
pub uninterp spec fn lowercase_beyond_ascii(s: Seq<char>) -> Seq<char>;

/// The lower-case mapping of a string (`str::to_lowercase`): on ASCII text
/// the ASCII mapping, beyond it the named result.
#[verifier::opaque]
pub open spec fn unicode_lowercase(s: Seq<char>) -> Seq<char> {
    if all_ascii(s) {
        ascii_lowercase(s)
    } else {
        lowercase_beyond_ascii(s)
    }
}

/// Calls `UnicodeNormalization::nfkc` of the `unicode-normalization` crate and
/// collects the characters. The result is named `nfkc`; nothing more is
/// claimed of it.
#[verifier::external_body]
fn nfkc_string(s: &str) -> (r: String)
    ensures
        r@ == nfkc(s@),
{
    s.nfkc().collect::<String>()
}

/// Calls `str::to_lowercase`. Of an ASCII string it claims the ASCII
/// mapping (each of `A`..=`Z` lowered, every other character kept, as the
/// Unicode lower-case mapping does for ASCII); of any other string the
/// result is named `lowercase_beyond_ascii`, and nothing more is claimed.
#[verifier::external_body]
pub(crate) fn lowercase_string(s: &str) -> (r: String)
    ensures
        all_ascii(s@) ==> r@ == ascii_lowercase(s@),
        !all_ascii(s@) ==> r@ == lowercase_beyond_ascii(s@),
        r@ == unicode_lowercase(s@),
{
    s.to_lowercase()
}

/// Lower-cases a character sequence.
pub fn lowercase_chars(v: &[char]) -> (r: Vec<char>)
    ensures
        r@ == unicode_lowercase(v@),
{
    let s = string_of(v);
    let l = lowercase_string(s.as_str());
    chars_of(l.as_str())
}

/// The lemma normal form: NFKC, then trimmed, then lower-cased.
pub open spec fn normalize_lemma_spec(s: Seq<char>) -> Seq<char> {
    unicode_lowercase(trim(nfkc(s)))
}

/// Normalizes a lemma: NFKC, trim, lowercase.
pub fn normalize_lemma(lemma: &str) -> (r: String)
    ensures
        r@ == normalize_lemma_spec(lemma@),
{
    let n = nfkc_string(lemma);
    let t = trim_str(n.as_str());
    lowercase_string(t.as_str())
}

/// `normalize_lemma` on a character sequence.
pub fn normalize_lemma_chars(v: &[char]) -> (r: Vec<char>)
    ensures
        r@ == normalize_lemma_spec(v@),
{
    let s = string_of(v);
    let n = normalize_lemma(s.as_str());
    chars_of(n.as_str())
}

} // verus!
