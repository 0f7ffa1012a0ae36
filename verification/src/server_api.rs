//! Request and response bodies of the HTTP API, their defaults, and the
//! decisions the handlers make before doing any I/O.
use vstd::prelude::*;
use crate::text::{chars_of, ends_with_str, trim, trim_str};
use crate::unicode::{lowercase_chars, unicode_lowercase};

verus! {

/// Body of a metadata extraction request.
pub struct ExtractRequest {
    pub file_path: String,
}

/// Query of a file preview request.
pub struct FilePreviewRequest {
    pub path: String,
}

/// Body of an OMW reconnect request; a missing or blank path disconnects.
pub struct ReconnectRequest {
    pub db_path: Option<String>,
}

impl ReconnectRequest {
    /// The database to connect to: the trimmed path, unless it is missing
    /// or blank (then the connection is dropped).
    pub fn target_path(&self) -> (r: Option<String>)
        ensures
            match self.db_path {
                Some(p) => if trim(p@).len() > 0 {
                    r matches Some(t) && t@ == trim(p@)
                } else {
                    r is None
                },
                None => r is None,
            },
    {
        match &self.db_path {
            Some(p) => {
                let t = trim_str(p.as_str());
                if chars_of(t.as_str()).len() > 0 {
                    Some(t)
                } else {
                    None
                }
            },
            None => None,
        }
    }
}

/// Body of a parent-resolution request for a tag.
pub struct ResolveParentRequest {
    pub tag_name: String,
    pub language: Option<String>,
    pub context_hint: Option<String>,
}

/// Answer of an index build request.
pub struct SearchIndexResponse {
    pub success: bool,
    pub total_indexed: usize,
    pub error: Option<String>,
}

/// The default number of hybrid search results.
pub fn default_search_top_k() -> (r: usize)
    ensures
        r == 20,
{
    20
}

/// The default largest leaf of a clustering tree.
pub fn default_max_leaf_size() -> (r: usize)
    ensures
        r == 50,
{
    50
}

/// The MIME type a browser can preview for a path, by its lower-cased
/// ending: images, videos and sounds only.
pub open spec fn preview_mime_spec(path: Seq<char>) -> Option<Seq<char>> {
    let l = unicode_lowercase(path);
    if ".png"@.is_suffix_of(l) {
        Some("image/png"@)
    } else if ".jpg"@.is_suffix_of(l) || ".jpeg"@.is_suffix_of(l) {
        Some("image/jpeg"@)
    } else if ".gif"@.is_suffix_of(l) {
        Some("image/gif"@)
    } else if ".webp"@.is_suffix_of(l) {
        Some("image/webp"@)
    } else if ".bmp"@.is_suffix_of(l) {
        Some("image/bmp"@)
    } else if ".svg"@.is_suffix_of(l) {
        Some("image/svg+xml"@)
    } else if ".avif"@.is_suffix_of(l) {
        Some("image/avif"@)
    } else if ".mp4"@.is_suffix_of(l) || ".m4v"@.is_suffix_of(l) {
        Some("video/mp4"@)
    } else if ".webm"@.is_suffix_of(l) {
        Some("video/webm"@)
    } else if ".ogv"@.is_suffix_of(l) || ".ogg"@.is_suffix_of(l) {
        Some("video/ogg"@)
    } else if ".mov"@.is_suffix_of(l) {
        Some("video/quicktime"@)
    } else if ".mp3"@.is_suffix_of(l) {
        Some("audio/mpeg"@)
    } else if ".wav"@.is_suffix_of(l) {
        Some("audio/wav"@)
    } else if ".flac"@.is_suffix_of(l) {
        Some("audio/flac"@)
    } else if ".aac"@.is_suffix_of(l) {
        Some("audio/aac"@)
    } else if ".m4a"@.is_suffix_of(l) {
        Some("audio/mp4"@)
    } else if ".opus"@.is_suffix_of(l) {
        Some("audio/opus"@)
    } else {
        None
    }
}

/// The preview MIME type of a path (see `preview_mime_spec`).
pub fn preview_mime_from_path(path: &str) -> (r: Option<&'static str>)
    ensures
        match r {
            Some(m) => preview_mime_spec(path@) == Some(m@),
            None => preview_mime_spec(path@) is None,
        },
{
    let l = lowercase_chars(&chars_of(path));
    if ends_with_str(&l, ".png") {
        Some("image/png")
    } else if ends_with_str(&l, ".jpg") || ends_with_str(&l, ".jpeg") {
        Some("image/jpeg")
    } else if ends_with_str(&l, ".gif") {
        Some("image/gif")
    } else if ends_with_str(&l, ".webp") {
        Some("image/webp")
    } else if ends_with_str(&l, ".bmp") {
        Some("image/bmp")
    } else if ends_with_str(&l, ".svg") {
        Some("image/svg+xml")
    } else if ends_with_str(&l, ".avif") {
        Some("image/avif")
    } else if ends_with_str(&l, ".mp4") || ends_with_str(&l, ".m4v") {
        Some("video/mp4")
    } else if ends_with_str(&l, ".webm") {
        Some("video/webm")
    } else if ends_with_str(&l, ".ogv") || ends_with_str(&l, ".ogg") {
        Some("video/ogg")
    } else if ends_with_str(&l, ".mov") {
        Some("video/quicktime")
    } else if ends_with_str(&l, ".mp3") {
        Some("audio/mpeg")
    } else if ends_with_str(&l, ".wav") {
        Some("audio/wav")
    } else if ends_with_str(&l, ".flac") {
        Some("audio/flac")
    } else if ends_with_str(&l, ".aac") {
        Some("audio/aac")
    } else if ends_with_str(&l, ".m4a") {
        Some("audio/mp4")
    } else if ends_with_str(&l, ".opus") {
        Some("audio/opus")
    } else {
        None
    }
}

/// What the health check reports.
pub struct HealthReport {
    pub is_pro: bool,
    pub geo_available: bool,
    pub hownet_available: bool,
    pub search_available: bool,
    pub cleanup_available: bool,
    pub omw_available: bool,
}

/// The health report from the probes of each subsystem: the proprietary
/// subsystems (geocoding, HowNet, search, cleanup) count only with the
/// proprietary modules present; the lexical database stands on its own.
pub fn health_report(is_pro: bool, geo_probe: bool, hownet_probe: bool, search_probe: bool, omw_probe: bool) -> (r:
    HealthReport)
    ensures
        r.is_pro == is_pro,
        r.geo_available == (is_pro && geo_probe),
        r.hownet_available == (is_pro && hownet_probe),
        r.search_available == (is_pro && search_probe),
        r.cleanup_available == is_pro,
        r.omw_available == omw_probe,
{
    HealthReport {
        is_pro,
        geo_available: is_pro && geo_probe,
        hownet_available: is_pro && hownet_probe,
        search_available: is_pro && search_probe,
        cleanup_available: is_pro,
        omw_available: omw_probe,
    }
}

/// The folder name of the configuration under the application-data
/// folder: the name the main process passes, unless blank, else the
/// product's own.
pub fn config_app_name(app_name: Option<&str>) -> (r: String)
    ensures
        r@ == (match app_name {
            Some(n) => if trim(n@).len() > 0 {
                n@
            } else {
                "firefly-ai-folder"@
            },
            None => "firefly-ai-folder"@,
        }),
{
    match app_name {
        Some(n) => {
            if chars_of(trim_str(n).as_str()).len() > 0 {
                n.to_owned()
            } else {
                "firefly-ai-folder".to_owned()
            }
        },
        None => "firefly-ai-folder".to_owned(),
    }
}

} // verus!
