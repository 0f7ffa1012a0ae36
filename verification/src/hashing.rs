//! Content hashes: the SHA-256 based 8-digit content hash, the FNV-1a digest
//! and the head/tail byte fingerprint used for perceptual pre-deduplication.
use sha2::{Digest, Sha256};
use vstd::prelude::*;
use crate::text::{hex_lower, hex_of_u64, hex_digit, hex_digit_exec, lemma_hex_lower_append, lemma_hex_lower_len, string_of};

verus! {

/// The SHA-256 digest of a byte sequence, as the `sha2` crate computes it.
pub uninterp spec fn sha256(data: Seq<u8>) -> Seq<u8>;

/// Calls `Sha256::new`, `update` and `finalize` of the `sha2` crate.
/// Claims that the result is the named digest of the input and that it is
/// 32 bytes long (the output size of `Sha256`).
#[verifier::external_body]
fn sha256_digest(data: &[u8]) -> (r: Vec<u8>)
    ensures
        r@ == sha256(data@),
        r@.len() == 32,
{
    let mut hasher = Sha256::new();
    hasher.update(data);
    hasher.finalize().to_vec()
}

/// The first 8 lower-case hex digits of the SHA-256 digest of the UTF-8 bytes of `s`.
pub open spec fn content_hash8_spec(s: Seq<char>) -> Seq<char> {
    let h = hex_lower(sha256(vstd::utf8::encode_utf8(s)));
    if h.len() >= 8 {
        h.take(8)
    } else {
        h
    }
}

/// First 8 hex digits of the SHA-256 of the string's UTF-8 bytes: eight
/// lower-case hexadecimal digits.
pub fn content_hash8(input: &str) -> (r: String)
    ensures
        r@ == content_hash8_spec(input@),
        r@.len() == 8,
        forall|i: int| 0 <= i < 8 ==> is_lower_hex_digit(#[trigger] r@[i]),
{
    let digest = sha256_digest(input.as_bytes());
    let mut out: Vec<char> = Vec::new();
    let mut i: usize = 0;
    while i < 4
        invariant
            digest@.len() == 32,
            i <= 4,
            out@ == hex_lower(digest@.take(i as int)),
        decreases 4 - i,
    {
        let b = digest[i];
        let hi = hex_digit_exec(b / 16);
        let lo = hex_digit_exec(b % 16);
        out.push(hi);
        out.push(lo);
        proof {
            let one = seq![b];
            assert(digest@.take(i + 1) =~= digest@.take(i as int) + one);
            lemma_hex_lower_append(digest@.take(i as int), one);
            assert(one.drop_first() =~= Seq::<u8>::empty());
            reveal_with_fuel(hex_lower, 2);
            assert(hex_lower(one) =~= seq![hex_digit(b / 16), hex_digit(b % 16)]);
        }
        i = i + 1;
        assert(out@ =~= hex_lower(digest@.take(i as int)));
    }
    proof {
        assert(digest@ =~= digest@.take(4) + digest@.skip(4));
        lemma_hex_lower_append(digest@.take(4), digest@.skip(4));
        lemma_hex_lower_len(digest@.take(4));
        assert(hex_lower(digest@).take(8) =~= hex_lower(digest@.take(4)));
        lemma_hex_lower_digits(digest@.take(4));
    }
    string_of(&out)
}

/// One FNV-1a step.
pub open spec fn fnv1a_step(h: u64, b: u8) -> u64 {
    ((h ^ (b as u64)) as int * 0x00000100000001b3int % 0x1_0000_0000_0000_0000int) as u64
}

/// FNV-1a 64-bit over a byte sequence, from the given state.
pub open spec fn fnv1a_from(h: u64, data: Seq<u8>) -> u64
    decreases data.len(),
{
    if data.len() == 0 {
        h
    } else {
        fnv1a_from(fnv1a_step(h, data[0]), data.drop_first())
    }
}

/// FNV-1a 64-bit digest of a byte sequence.
pub open spec fn fnv1a(data: Seq<u8>) -> u64 {
    fnv1a_from(0xcbf29ce484222325u64, data)
}

pub proof fn lemma_fnv1a_from_push(h: u64, data: Seq<u8>, b: u8)
    ensures
        fnv1a_from(h, data.push(b)) == fnv1a_step(fnv1a_from(h, data), b),
    decreases data.len(),
{
    if data.len() > 0 {
        assert(data.push(b).drop_first() =~= data.drop_first().push(b));
        assert(data.push(b)[0] == data[0]);
        lemma_fnv1a_from_push(fnv1a_step(h, data[0]), data.drop_first(), b);
    } else {
        assert(data.push(b).drop_first() =~= Seq::<u8>::empty());
        assert(data.push(b)[0] == b);
        assert(fnv1a_from(fnv1a_step(h, b), Seq::<u8>::empty()) == fnv1a_step(h, b));
    }
}

/// Renders `v` as `width` lower-case hex digits (`format!("{:0width$x}")`
/// for values that fit).
pub fn hex_u64(v: u64, width: usize) -> (r: String)
    ensures
        r@ == hex_of_u64(v, width as nat),
{
    // digits are produced least significant first, then reversed
    let mut digits: Vec<char> = Vec::new();
    let mut k: usize = 0;
    let mut rest = v;
    assert(hex_rev(digits@) =~= Seq::<char>::empty());
    assert(hex_of_u64(v, width as nat) =~= hex_of_u64(rest, (width - k) as nat) + hex_rev(digits@));
    while k < width
        invariant
            k <= width,
            digits@.len() == k,
            hex_of_u64(v, width as nat) == hex_of_u64(rest, (width - k) as nat) + hex_rev(
                digits@,
            ),
        decreases width - k,
    {
        let d = hex_digit_exec((rest % 16) as u8);
        proof {
            assert(digits@.push(d).drop_last() =~= digits@);
            assert(hex_rev(digits@.push(d)) =~= seq![d] + hex_rev(digits@));
            let w = (width - k) as nat;
            assert(hex_of_u64(rest, w) == hex_of_u64(rest / 16, (w - 1) as nat).push(d));
            assert(hex_of_u64(rest / 16, (w - 1) as nat).push(d) + hex_rev(digits@)
                =~= hex_of_u64(rest / 16, (w - 1) as nat) + hex_rev(digits@.push(d)));
        }
        digits.push(d);
        rest = rest / 16;
        k = k + 1;
    }
    proof {
        assert(hex_of_u64(rest, 0) =~= Seq::<char>::empty());
        assert(hex_of_u64(v, width as nat) =~= hex_rev(digits@));
    }
    let mut out: Vec<char> = Vec::new();
    let mut j: usize = width;
    while j > 0
        invariant
            j <= width,
            digits@.len() == width,
            out@ == hex_rev(digits@).take((width - j) as int),
        decreases j,
    {
        j = j - 1;
        out.push(digits[j]);
        proof {
            lemma_hex_rev_index(digits@, (width - 1 - j) as int);
            assert(out@ =~= hex_rev(digits@).take((width - j) as int));
        }
    }
    proof {
        lemma_hex_rev_len(digits@);
        assert(hex_rev(digits@).take(width as int) =~= hex_rev(digits@));
    }
    string_of(&out)
}

/// The reverse of a character sequence.
pub open spec fn hex_rev(s: Seq<char>) -> Seq<char>
    decreases s.len(),
{
    if s.len() == 0 {
        Seq::empty()
    } else {
        seq![s.last()] + hex_rev(s.drop_last())
    }
}

proof fn lemma_hex_rev_len(s: Seq<char>)
    ensures
        hex_rev(s).len() == s.len(),
    decreases s.len(),
{
    if s.len() > 0 {
        lemma_hex_rev_len(s.drop_last());
    }
}

proof fn lemma_hex_rev_index(s: Seq<char>, i: int)
    requires
        0 <= i < s.len(),
    ensures
        hex_rev(s).len() == s.len(),
        hex_rev(s)[i] == s[s.len() - 1 - i],
    decreases s.len(),
{
    lemma_hex_rev_len(s);
    lemma_hex_rev_len(s.drop_last());
    if i > 0 {
        lemma_hex_rev_index(s.drop_last(), i - 1);
    }
}

/// FNV-1a 64-bit digest rendered as 16 lower-case hex digits.
pub fn md5_hex(data: &[u8]) -> (r: String)
    ensures
        r@ == hex_of_u64(fnv1a(data@), 16),
{
    let mut h: u64 = 0xcbf29ce484222325;
    let mut i: usize = 0;
    while i < data.len()
        invariant
            i <= data@.len(),
            h == fnv1a_from(0xcbf29ce484222325u64, data@.take(i as int)),
        decreases data.len() - i,
    {
        proof {
            assert(data@.take(i + 1) =~= data@.take(i as int).push(data@[i as int]));
            lemma_fnv1a_from_push(0xcbf29ce484222325u64, data@.take(i as int), data@[i as int]);
        }
        h = (h ^ (data[i] as u64)).wrapping_mul(0x00000100000001b3);
        i = i + 1;
    }
    assert(data@.take(data@.len() as int) =~= data@);
    hex_u64(h, 16)
}

/// One step of the multiplicative fingerprint: `h * 31 + b` modulo `2^64`.
pub open spec fn poly31_step(h: u64, b: u8) -> u64 {
    ((h as int * 31 + b as int) % 0x1_0000_0000_0000_0000int) as u64
}

/// The multiplicative fingerprint folded over a byte sequence.
pub open spec fn poly31_from(h: u64, data: Seq<u8>) -> u64
    decreases data.len(),
{
    if data.len() == 0 {
        h
    } else {
        poly31_step(poly31_from(h, data.drop_last()), data.last())
    }
}

/// Size of the sampled head and tail windows.
pub const PHASH_WINDOW: u64 = 65536;

/// Files larger than this also contribute their tail window.
pub const PHASH_TAIL_THRESHOLD: u64 = 131072;

/// The fingerprint of a file of `len` bytes whose sampled head and tail are given.
pub open spec fn phash_spec(len: u64, head: Seq<u8>, tail: Option<Seq<u8>>) -> Option<Seq<char>> {
    if len == 0 {
        None
    } else {
        let seed = ((len as int * 31) % 0x1_0000_0000_0000_0000int) as u64;
        let h = poly31_from(seed, head);
        let h2 = match tail {
            Some(t) if len > PHASH_TAIL_THRESHOLD => poly31_from(h, t),
            _ => h,
        };
        Some(hex_of_u64(h2, 16))
    }
}

/// The contents of an optional byte slice.
pub open spec fn bytes_opt(o: Option<&[u8]>) -> Option<Seq<u8>> {
    match o {
        Some(t) => Some(t@),
        None => None,
    }
}

fn poly31_fold(h0: u64, data: &[u8]) -> (h: u64)
    ensures
        h == poly31_from(h0, data@),
{
    let mut h = h0;
    let mut i: usize = 0;
    while i < data.len()
        invariant
            i <= data@.len(),
            h == poly31_from(h0, data@.take(i as int)),
        decreases data.len() - i,
    {
        proof {
            assert(data@.take(i + 1).drop_last() =~= data@.take(i as int));
        }
        h = h.wrapping_mul(31).wrapping_add(data[i] as u64);
        i = i + 1;
    }
    assert(data@.take(data@.len() as int) =~= data@);
    h
}

/// Quick content fingerprint of a file from its length and its sampled head
/// (first 64 KiB) and tail (last 64 KiB, used only above 128 KiB).
/// Empty files have no fingerprint.
pub fn phash_from_samples(len: u64, head: &[u8], tail: Option<&[u8]>) -> (r: Option<String>)
    ensures
        match r {
            Some(s) => phash_spec(len, head@, bytes_opt(tail)) == Some(s@),
            None => phash_spec(len, head@, bytes_opt(tail)) is None,
        },
{
    if len == 0 {
        return None;
    }
    let seed = len.wrapping_mul(31);
    let h = poly31_fold(seed, head);
    let h2 = match tail {
        Some(t) => {
            if len > PHASH_TAIL_THRESHOLD {
                poly31_fold(h, t)
            } else {
                h
            }
        },
        None => h,
    };
    Some(hex_u64(h2, 16))
}

/// A lower-case hexadecimal digit: `0`-`9` or `a`-`f`.
pub open spec fn is_lower_hex_digit(c: char) -> bool {
    (48 <= c as int <= 57) || (97 <= c as int <= 102)
}

proof fn lemma_hex_of_u64_shape(v: u64, w: nat)
    ensures
        hex_of_u64(v, w).len() == w,
        forall|i: int| 0 <= i < w ==> is_lower_hex_digit(#[trigger] hex_of_u64(v, w)[i]),
    decreases w,
{
    if w > 0 {
        lemma_hex_of_u64_shape(v / 16, (w - 1) as nat);
        let n = (v % 16) as u8;
        assert(is_lower_hex_digit(hex_digit(n)));
        let prev = hex_of_u64(v / 16, (w - 1) as nat);
        assert forall|i: int| 0 <= i < w implies is_lower_hex_digit(#[trigger] hex_of_u64(v, w)[i]) by {
            if i < w - 1 {
                assert(hex_of_u64(v, w)[i] == prev[i]);
            }
        }
    }
}

/// The fingerprint is 64 bits wide: for every non-empty file it is 16
/// lower-case hexadecimal digits; an empty file has none.
pub proof fn law_phash_is_sixteen_hex_digits(len: u64, head: Seq<u8>, tail: Option<Seq<u8>>)
    ensures
        len == 0 <==> phash_spec(len, head, tail) is None,
        phash_spec(len, head, tail) matches Some(s) ==> s.len() == 16 && forall|i: int|
            0 <= i < 16 ==> is_lower_hex_digit(#[trigger] s[i]),
{
    if len > 0 {
        let seed = ((len as int * 31) % 0x1_0000_0000_0000_0000int) as u64;
        let h = poly31_from(seed, head);
        let h2 = match tail {
            Some(t) if len > PHASH_TAIL_THRESHOLD => poly31_from(h, t),
            _ => h,
        };
        lemma_hex_of_u64_shape(h2, 16);
    }
}

/// Every character of a lower-case hexadecimal rendering is a lower-case
/// hexadecimal digit.
pub proof fn lemma_hex_lower_digits(b: Seq<u8>)
    ensures
        forall|i: int| 0 <= i < hex_lower(b).len() ==> is_lower_hex_digit(#[trigger] hex_lower(b)[i]),
    decreases b.len(),
{
    if b.len() > 0 {
        lemma_hex_lower_digits(b.drop_first());
        let hi = (b[0] / 16) as u8;
        let lo = (b[0] % 16) as u8;
        assert(is_lower_hex_digit(hex_digit(hi)));
        assert(is_lower_hex_digit(hex_digit(lo)));
        let rest = hex_lower(b.drop_first());
        let h = hex_lower(b);
        assert(h == seq![hex_digit(b[0] / 16), hex_digit(b[0] % 16)] + rest);
        assert forall|i: int| 0 <= i < h.len() implies is_lower_hex_digit(#[trigger] h[i]) by {
            if i >= 2 {
                assert(h[i] == rest[i - 2]);
            }
        }
    }
}

} // verus!
