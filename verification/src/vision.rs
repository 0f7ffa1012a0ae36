//! MIME type detection from a file's leading bytes (its magic header) and,
//! when they name no known format, from its extension.
use vstd::prelude::*;
use crate::paths::{path_extension, path_extension_spec};
use crate::text::{chars_eq, chars_of};
use crate::unicode::{lowercase_chars, unicode_lowercase};

verus! {

/// The MIME type of a lower-cased extension.
pub open spec fn mime_for_extension(e: Seq<char>) -> Seq<char> {
    if e == "png"@ {
        "image/png"@
    } else if e == "jpg"@ || e == "jpeg"@ {
        "image/jpeg"@
    } else if e == "gif"@ {
        "image/gif"@
    } else if e == "webp"@ {
        "image/webp"@
    } else if e == "bmp"@ {
        "image/bmp"@
    } else if e == "pdf"@ {
        "application/pdf"@
    } else if e == "docx"@ {
        "application/vnd.openxmlformats-officedocument.wordprocessingml.document"@
    } else if e == "pptx"@ {
        "application/vnd.openxmlformats-officedocument.presentationml.presentation"@
    } else if e == "xlsx"@ {
        "application/vnd.openxmlformats-officedocument.spreadsheetml.sheet"@
    } else if e == "mp3"@ {
        "audio/mpeg"@
    } else if e == "mp4"@ {
        "video/mp4"@
    } else if e == "json"@ {
        "application/json"@
    } else if e == "txt"@ || e == "md"@ {
        "text/plain"@
    } else {
        "application/octet-stream"@
    }
}

/// The MIME type of the file a path names, by its (lower-cased) extension.
pub open spec fn detect_mime_spec(path: Seq<char>) -> Seq<char> {
    match path_extension_spec(path) {
        Some(e) => mime_for_extension(unicode_lowercase(e)),
        None => "application/octet-stream"@,
    }
}

fn is(v: &[char], lit: &str) -> (r: bool)
    ensures
        r == (v@ == lit@),
{
    chars_eq(v, &chars_of(lit))
}

/// `mime_for_extension` on characters.
pub fn mime_for_extension_exec(e: &[char]) -> (r: &'static str)
    ensures
        r@ == mime_for_extension(e@),
{
    if is(e, "png") {
        "image/png"
    } else if is(e, "jpg") || is(e, "jpeg") {
        "image/jpeg"
    } else if is(e, "gif") {
        "image/gif"
    } else if is(e, "webp") {
        "image/webp"
    } else if is(e, "bmp") {
        "image/bmp"
    } else if is(e, "pdf") {
        "application/pdf"
    } else if is(e, "docx") {
        "application/vnd.openxmlformats-officedocument.wordprocessingml.document"
    } else if is(e, "pptx") {
        "application/vnd.openxmlformats-officedocument.presentationml.presentation"
    } else if is(e, "xlsx") {
        "application/vnd.openxmlformats-officedocument.spreadsheetml.sheet"
    } else if is(e, "mp3") {
        "audio/mpeg"
    } else if is(e, "mp4") {
        "video/mp4"
    } else if is(e, "json") {
        "application/json"
    } else if is(e, "txt") || is(e, "md") {
        "text/plain"
    } else {
        "application/octet-stream"
    }
}

/// The MIME type of the file a path names (see `detect_mime_spec`).
pub fn detect_mime_by_extension(path: &str) -> (r: String)
    ensures
        r@ == detect_mime_spec(path@),
{
    match path_extension(path) {
        Some(e) => {
            let l = lowercase_chars(&e);
            mime_for_extension_exec(&l).to_owned()
        },
        None => "application/octet-stream".to_owned(),
    }
}

/// Visual and type classification engine.
pub struct OmniVisionEngine;

/// Failure of a vision operation.
pub struct VisionError {
    pub message: String,
}

/// Whether the bytes begin with the given bytes.
pub open spec fn starts_with_bytes(h: Seq<u8>, p: Seq<u8>) -> bool {
    p.len() <= h.len() && h.subrange(0, p.len() as int) == p
}

/// The MIME type named by a file's leading bytes: the PNG, JPEG, GIF, WebP
/// (RIFF container of type `WEBP`), PDF and MP3 (ID3 tag) signatures.
pub open spec fn sniff_mime_spec(h: Seq<u8>) -> Option<Seq<char>> {
    if starts_with_bytes(h, seq![0x89u8, 0x50u8, 0x4Eu8, 0x47u8, 0x0Du8, 0x0Au8, 0x1Au8, 0x0Au8]) {
        Some("image/png"@)
    } else if starts_with_bytes(h, seq![0xFFu8, 0xD8u8, 0xFFu8]) {
        Some("image/jpeg"@)
    } else if starts_with_bytes(h, seq![0x47u8, 0x49u8, 0x46u8, 0x38u8, 0x37u8, 0x61u8])
        || starts_with_bytes(h, seq![0x47u8, 0x49u8, 0x46u8, 0x38u8, 0x39u8, 0x61u8]) {
        Some("image/gif"@)
    } else if starts_with_bytes(h, seq![0x52u8, 0x49u8, 0x46u8, 0x46u8]) && h.len() >= 12
        && h.subrange(8, 12) == seq![0x57u8, 0x45u8, 0x42u8, 0x50u8] {
        Some("image/webp"@)
    } else if starts_with_bytes(h, seq![0x25u8, 0x50u8, 0x44u8, 0x46u8, 0x2Du8]) {
        Some("application/pdf"@)
    } else if starts_with_bytes(h, seq![0x49u8, 0x44u8, 0x33u8]) {
        Some("audio/mpeg"@)
    } else {
        None
    }
}

/// The MIME type of a file from its leading bytes, else from its path.
pub open spec fn detect_mime_content_spec(path: Seq<char>, head: Seq<u8>) -> Seq<char> {
    match sniff_mime_spec(head) {
        Some(m) => m,
        None => detect_mime_spec(path),
    }
}

fn bytes_at(h: &[u8], at: usize, p: &Vec<u8>) -> (r: bool)
    ensures
        r == (at + p@.len() <= h@.len() && h@.subrange(at as int, at + p@.len()) == p@),
{
    if at > h.len() || p.len() > h.len() - at {
        return false;
    }
    let n = h.len();
    let mut i: usize = 0;
    while i < p.len()
        invariant
            n == h@.len(),
            at + p@.len() <= n,
            i <= p@.len(),
            forall|k: int| 0 <= k < i ==> h@[at + k] == p@[k],
        decreases p.len() - i,
    {
        if h[at + i] != p[i] {
            assert(h@.subrange(at as int, at + p@.len())[i as int] != p@[i as int]);
            return false;
        }
        i = i + 1;
    }
    assert(h@.subrange(at as int, at + p@.len()) =~= p@);
    true
}

/// The MIME type named by a file's leading bytes (see `sniff_mime_spec`).
pub fn sniff_mime(head: &[u8]) -> (r: Option<&'static str>)
    ensures
        match r {
            Some(m) => sniff_mime_spec(head@) == Some(m@),
            None => sniff_mime_spec(head@) is None,
        },
{
    let png: Vec<u8> = vec![0x89u8, 0x50u8, 0x4Eu8, 0x47u8, 0x0Du8, 0x0Au8, 0x1Au8, 0x0Au8];
    let jpeg: Vec<u8> = vec![0xFFu8, 0xD8u8, 0xFFu8];
    let gif7: Vec<u8> = vec![0x47u8, 0x49u8, 0x46u8, 0x38u8, 0x37u8, 0x61u8];
    let gif9: Vec<u8> = vec![0x47u8, 0x49u8, 0x46u8, 0x38u8, 0x39u8, 0x61u8];
    let riff: Vec<u8> = vec![0x52u8, 0x49u8, 0x46u8, 0x46u8];
    let webp: Vec<u8> = vec![0x57u8, 0x45u8, 0x42u8, 0x50u8];
    let pdf: Vec<u8> = vec![0x25u8, 0x50u8, 0x44u8, 0x46u8, 0x2Du8];
    let id3: Vec<u8> = vec![0x49u8, 0x44u8, 0x33u8];
    proof {
        reveal_strlit("image/png");
    }
    if bytes_at(head, 0, &png) {
        Some("image/png")
    } else if bytes_at(head, 0, &jpeg) {
        Some("image/jpeg")
    } else if bytes_at(head, 0, &gif7) || bytes_at(head, 0, &gif9) {
        Some("image/gif")
    } else if bytes_at(head, 0, &riff) && bytes_at(head, 8, &webp) {
        Some("image/webp")
    } else if bytes_at(head, 0, &pdf) {
        Some("application/pdf")
    } else if bytes_at(head, 0, &id3) {
        Some("audio/mpeg")
    } else {
        None
    }
}

impl OmniVisionEngine {
    /// Detects a file's MIME type from its leading bytes (the magic header),
    /// falling back to its extension; never fails.
    pub fn detect_mime_type(path: &str, head: &[u8]) -> (r: Result<String, VisionError>)
        ensures
            r matches Ok(m) && m@ == detect_mime_content_spec(path@, head@),
    {
        match sniff_mime(head) {
            Some(m) => Ok(m.to_owned()),
            None => Ok(detect_mime_by_extension(path)),
        }
    }
}

} // verus!
