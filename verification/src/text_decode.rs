//! Decoding the bytes of a text or source file: byte-order marks, binary
//! detection by NUL bytes, strict UTF-8, GBK, and the lossy fallback that
//! loses the fewest characters.
use vstd::prelude::*;
use vstd::utf8::{encode_utf8, decode_utf8, valid_utf8};
use crate::extract_text::{truncate_spec, truncate_string};
use crate::text::string_of;

verus! {

/// What `encoding_rs::UTF_8.decode` yields for `bytes`: the text (malformed
/// sequences replaced by U+FFFD, a leading BOM dropped) and whether any
/// sequence was malformed.
pub uninterp spec fn utf8_decoding(bytes: Seq<u8>) -> (Seq<char>, bool);

/// What `encoding_rs::UTF_16LE.decode` yields for `bytes`.
pub uninterp spec fn utf16le_decoding(bytes: Seq<u8>) -> (Seq<char>, bool);

/// What `encoding_rs::UTF_16BE.decode` yields for `bytes`.
pub uninterp spec fn utf16be_decoding(bytes: Seq<u8>) -> (Seq<char>, bool);

/// What `encoding_rs::GBK.decode` yields for `bytes`.
pub uninterp spec fn gbk_decoding(bytes: Seq<u8>) -> (Seq<char>, bool);

/// The largest buffer handed to a decoder: `Encoding::decode` panics when
/// the size of its output buffer overflows `usize`, about three times the
/// input.
pub open spec fn decodable_len(n: nat) -> bool {
    n <= usize::MAX / 4
}

/// `encoding_rs::UTF_8.decode(bytes)`: the text and whether it had errors.
/// The contract names the result and states nothing more of it.
#[verifier::external_body]
fn decode_utf8_lossy(bytes: &[u8]) -> (r: (String, bool))
    requires
        decodable_len(bytes@.len()),
    ensures
        (r.0@, r.1) == utf8_decoding(bytes@),
{
    let (text, _, had_errors) = encoding_rs::UTF_8.decode(bytes);
    (text.into_owned(), had_errors)
}

/// `encoding_rs::UTF_16LE.decode(bytes)`: the text and whether it had
/// errors. The contract names the result and states nothing more of it.
#[verifier::external_body]
fn decode_utf16le(bytes: &[u8]) -> (r: (String, bool))
    requires
        decodable_len(bytes@.len()),
    ensures
        (r.0@, r.1) == utf16le_decoding(bytes@),
{
    let (text, _, had_errors) = encoding_rs::UTF_16LE.decode(bytes);
    (text.into_owned(), had_errors)
}

/// `encoding_rs::UTF_16BE.decode(bytes)`: the text and whether it had
/// errors. The contract names the result and states nothing more of it.
#[verifier::external_body]
fn decode_utf16be(bytes: &[u8]) -> (r: (String, bool))
    requires
        decodable_len(bytes@.len()),
    ensures
        (r.0@, r.1) == utf16be_decoding(bytes@),
{
    let (text, _, had_errors) = encoding_rs::UTF_16BE.decode(bytes);
    (text.into_owned(), had_errors)
}

/// `encoding_rs::GBK.decode(bytes)`: the text and whether it had errors.
/// The contract names the result and states nothing more of it.
#[verifier::external_body]
fn decode_gbk(bytes: &[u8]) -> (r: (String, bool))
    requires
        decodable_len(bytes@.len()),
    ensures
        (r.0@, r.1) == gbk_decoding(bytes@),
{
    let (text, _, had_errors) = encoding_rs::GBK.decode(bytes);
    (text.into_owned(), had_errors)
}

/// `std::str::from_utf8`: the text when the bytes are well-formed UTF-8
/// (as the standard library documents), else nothing.
#[verifier::external_body]
fn strict_utf8(bytes: &[u8]) -> (r: Option<String>)
    ensures
        r matches Some(t) ==> encode_utf8(t@) == bytes@,
        r is None <==> !valid_utf8(bytes@),
{
    match std::str::from_utf8(bytes) {
        Ok(t) => Some(t.to_string()),
        Err(_) => None,
    }
}

/// The notice returned in place of the content of a binary file.
pub open spec fn binary_notice() -> Seq<char> {
    "[Binary File] NUL byte detected, text content skipped to prevent garbled output."@
}

/// The bytes inspected for NUL bytes: at most the first thousand.
pub open spec fn nul_sample(b: Seq<u8>) -> Seq<u8> {
    if b.len() <= 1000 {
        b
    } else {
        b.take(1000)
    }
}

/// The number of zero bytes of `s` at positions of the given parity
/// (0: even, 1: odd).
pub open spec fn zeros_at_parity(s: Seq<u8>, parity: int) -> nat
    decreases s.len(),
{
    if s.len() == 0 {
        0
    } else {
        zeros_at_parity(s.drop_last(), parity) + if s.last() == 0 && (s.len() - 1) % 2 == parity {
            1nat
        } else {
            0nat
        }
    }
}

/// Whether a NUL-bearing sample has the shape of UTF-16 text without a BOM:
/// zeros on one parity only, and more than a quarter of the sample.
pub open spec fn utf16_shaped(s: Seq<u8>) -> bool {
    let odd = zeros_at_parity(s, 1);
    let even = zeros_at_parity(s, 0);
    (odd > s.len() / 4 && even == 0) || (even > s.len() / 4 && odd == 0)
}

/// The number of U+FFFD replacement characters in `s`.
pub open spec fn replacements(s: Seq<char>) -> nat
    decreases s.len(),
{
    if s.len() == 0 {
        0
    } else {
        replacements(s.drop_last()) + if s.last() == '\u{FFFD}' {
            1nat
        } else {
            0nat
        }
    }
}

/// The text of a file's bytes, within `max_bytes`: a UTF-8, UTF-16LE or
/// UTF-16BE BOM decides the encoding; a NUL byte among the first thousand
/// marks the file binary unless the sample looks like BOM-less UTF-16 that
/// decodes cleanly; well-formed UTF-8 is taken as is; then GBK if it
/// decodes cleanly; else whichever lossy decoding (GBK or UTF-8) has fewer
/// replacement characters, UTF-8 on a tie.
pub open spec fn decode_text_spec(b: Seq<u8>, max_bytes: nat) -> Seq<char> {
    if b.len() == 0 {
        Seq::empty()
    } else if b.len() >= 3 && b[0] == 0xEF && b[1] == 0xBB && b[2] == 0xBF {
        truncate_spec(utf8_decoding(b.skip(3)).0, max_bytes)
    } else if b.len() >= 2 && b[0] == 0xFF && b[1] == 0xFE {
        truncate_spec(utf16le_decoding(b.skip(2)).0, max_bytes)
    } else if b.len() >= 2 && b[0] == 0xFE && b[1] == 0xFF {
        truncate_spec(utf16be_decoding(b.skip(2)).0, max_bytes)
    } else if nul_sample(b).contains(0u8) {
        if utf16_shaped(nul_sample(b)) && !utf16le_decoding(b).1 {
            truncate_spec(utf16le_decoding(b).0, max_bytes)
        } else {
            binary_notice()
        }
    } else if valid_utf8(b) {
        truncate_spec(decode_utf8(b), max_bytes)
    } else if !gbk_decoding(b).1 {
        truncate_spec(gbk_decoding(b).0, max_bytes)
    } else if replacements(gbk_decoding(b).0) < replacements(utf8_decoding(b).0) {
        truncate_spec(gbk_decoding(b).0, max_bytes)
    } else {
        truncate_spec(utf8_decoding(b).0, max_bytes)
    }
}

/// Counts the zero bytes at even and at odd positions of `s`.
fn count_zero_parities(s: &[u8]) -> (r: (usize, usize))
    ensures
        r.0 == zeros_at_parity(s@, 0),
        r.1 == zeros_at_parity(s@, 1),
{
    let mut even: usize = 0;
    let mut odd: usize = 0;
    let mut i: usize = 0;
    while i < s.len()
        invariant
            i <= s@.len(),
            even == zeros_at_parity(s@.take(i as int), 0),
            odd == zeros_at_parity(s@.take(i as int), 1),
            even <= i,
            odd <= i,
        decreases s.len() - i,
    {
        proof {
            assert(s@.take(i + 1).drop_last() =~= s@.take(i as int));
            lemma_zeros_bound(s@.take(i as int), 0);
            lemma_zeros_bound(s@.take(i as int), 1);
        }
        if s[i] == 0 {
            if i % 2 == 0 {
                even = even + 1;
            } else {
                odd = odd + 1;
            }
        }
        i = i + 1;
    }
    assert(s@.take(s@.len() as int) =~= s@);
    (even, odd)
}

proof fn lemma_zeros_bound(s: Seq<u8>, parity: int)
    ensures
        zeros_at_parity(s, parity) <= s.len(),
    decreases s.len(),
{
    if s.len() > 0 {
        lemma_zeros_bound(s.drop_last(), parity);
    }
}

/// The number of replacement characters in a string.
fn count_replacements(t: &str) -> (n: usize)
    ensures
        n == replacements(t@),
{
    let v = crate::text::chars_of(t);
    let mut n: usize = 0;
    let mut i: usize = 0;
    while i < v.len()
        invariant
            v@ == t@,
            i <= v@.len(),
            n == replacements(v@.take(i as int)),
            n <= i,
        decreases v.len() - i,
    {
        proof {
            assert(v@.take(i + 1).drop_last() =~= v@.take(i as int));
        }
        if v[i] == '\u{FFFD}' {
            n = n + 1;
        }
        i = i + 1;
    }
    assert(v@.take(v@.len() as int) =~= v@);
    n
}

/// Decodes the bytes of a text or source file (see `decode_text_spec`).
pub fn decode_plain_text(bytes: &[u8], max_bytes: usize) -> (r: String)
    requires
        decodable_len(bytes@.len()),
    ensures
        r@ == decode_text_spec(bytes@, max_bytes as nat),
{
    let n = bytes.len();
    if n == 0 {
        return String::new();
    }
    if n >= 3 && bytes[0] == 0xEF && bytes[1] == 0xBB && bytes[2] == 0xBF {
        let rest = &bytes[3..n];
        assert(rest@ == bytes@.skip(3));
        let (t, _) = decode_utf8_lossy(rest);
        return truncate_string(t.as_str(), max_bytes);
    }
    if n >= 2 {
        if bytes[0] == 0xFF && bytes[1] == 0xFE {
            let rest = &bytes[2..n];
            assert(rest@ == bytes@.skip(2));
            let (t, _) = decode_utf16le(rest);
            return truncate_string(t.as_str(), max_bytes);
        } else if bytes[0] == 0xFE && bytes[1] == 0xFF {
            let rest = &bytes[2..n];
            assert(rest@ == bytes@.skip(2));
            let (t, _) = decode_utf16be(rest);
            return truncate_string(t.as_str(), max_bytes);
        }
    }
    let sample_len: usize = if n <= 1000 { n } else { 1000 };
    let sample = &bytes[0..sample_len];
    assert(sample@ == nul_sample(bytes@));
    let mut has_nul = false;
    let mut i: usize = 0;
    while i < sample_len
        invariant
            sample@.len() == sample_len,
            i <= sample_len,
            has_nul == sample@.take(i as int).contains(0u8),
        decreases sample_len - i,
    {
        proof {
            assert(sample@.take(i + 1) =~= sample@.take(i as int).push(sample@[i as int]));
        }
        if sample[i] == 0 {
            has_nul = true;
            assert(sample@.take(i + 1)[i as int] == 0u8);
        } else {
            proof {
                let t1 = sample@.take(i + 1);
                let t0 = sample@.take(i as int);
                if t1.contains(0u8) {
                    let j = choose|j: int| 0 <= j < t1.len() && #[trigger] t1[j] == 0u8;
                    assert(j != i);
                    assert(t0[j] == 0u8);
                }
            }
        }
        i = i + 1;
    }
    assert(sample@.take(sample_len as int) =~= sample@);
    if has_nul {
        let (even, odd) = count_zero_parities(sample);
        let quarter = sample_len / 4;
        if (odd > quarter && even == 0) || (even > quarter && odd == 0) {
            let (t, had_errors) = decode_utf16le(bytes);
            if !had_errors {
                return truncate_string(t.as_str(), max_bytes);
            }
        }
        return string_of(&crate::text::chars_of(
            "[Binary File] NUL byte detected, text content skipped to prevent garbled output.",
        ));
    }
    match strict_utf8(bytes) {
        Some(t) => {
            proof {
                vstd::utf8::encode_utf8_decode_utf8(t@);
            }
            return truncate_string(t.as_str(), max_bytes);
        },
        None => {},
    }
    let (gbk, gbk_errors) = decode_gbk(bytes);
    if !gbk_errors {
        return truncate_string(gbk.as_str(), max_bytes);
    }
    let (utf8, _) = decode_utf8_lossy(bytes);
    if count_replacements(gbk.as_str()) < count_replacements(utf8.as_str()) {
        truncate_string(gbk.as_str(), max_bytes)
    } else {
        truncate_string(utf8.as_str(), max_bytes)
    }
}

} // verus!
