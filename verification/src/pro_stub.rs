//! The open-core stand-ins for the proprietary modules: every capability
//! reports itself unavailable or yields an empty result.
use vstd::prelude::*;

verus! {

/// Whether the proprietary modules are present (never, in open core).
pub fn is_pro_enabled() -> (r: bool)
    ensures
        r == false,
{
    false
}

/// Failure of an operation that only the proprietary modules provide.
pub struct ProUnavailable {
    pub message: String,
}

/// The message of a cover-extraction request in open core.
pub open spec fn cover_unavailable_message() -> Seq<char> {
    "Open-core mode: cover extraction requires omni-pro"@
}

/// The reason reported by reverse geocoding in open core.
pub open spec fn geo_unavailable_reason() -> Seq<char> {
    "Open-core mode: omni-pro not present"@
}

/// The message of a cleanup fix request in open core.
pub open spec fn cleanup_unavailable_message() -> Seq<char> {
    "Open-core mode: omni-cleanup not present"@
}

fn cover_unavailable() -> (e: ProUnavailable)
    ensures
        e.message@ == cover_unavailable_message(),
{
    ProUnavailable { message: "Open-core mode: cover extraction requires omni-pro".to_owned() }
}

/// Offline reverse geocoding (no dataset in open core).
pub struct GeoService;

impl GeoService {
    /// A service without a dataset.
    pub fn unavailable() -> (r: GeoService) {
        GeoService
    }

    /// A service for the dataset at `path` (ignored in open core).
    pub fn from_path(_path: &str) -> (r: GeoService) {
        GeoService
    }

    /// Whether a dataset is loaded (never, in open core).
    pub fn is_available(&self) -> (r: bool)
        ensures
            r == false,
    {
        false
    }

    /// The reason every reverse-geocoding request is refused.
    pub fn unavailable_reason(&self) -> (r: String)
        ensures
            r@ == geo_unavailable_reason(),
    {
        "Open-core mode: omni-pro not present".to_owned()
    }
}

/// Locates a local geo dataset (none in open core).
pub fn discover_dataset_path() -> (r: Option<String>)
    ensures
        r is None,
{
    None
}

/// File cleanup and duplicate detection (absent in open core).
pub struct OmniCleanup;

impl OmniCleanup {
    /// Initializes the cleanup engine (nothing to do in open core).
    pub fn init() {
    }

    /// Applies a fix action to paths: nothing succeeds, nothing fails, and
    /// one error explains that the module is absent.
    pub fn execute_fix(_action: &str, _paths: Vec<String>) -> (r: (
        usize,
        usize,
        Vec<String>,
        Vec<String>,
    ))
        ensures
            r.0 == 0,
            r.1 == 0,
            r.2@.len() == 0,
            r.3@.len() == 1,
            r.3@[0]@ == cleanup_unavailable_message(),
    {
        let mut errors: Vec<String> = Vec::new();
        errors.push("Open-core mode: omni-cleanup not present".to_owned());
        (0, 0, Vec::new(), errors)
    }
}

/// Cover rendering for documents (absent in open core).
pub struct CoverRenderer;

impl CoverRenderer {
    /// Renders a document cover: always refused in open core.
    pub fn render_cover(_file_path: &str) -> (r: Result<Vec<u8>, ProUnavailable>)
        ensures
            r matches Err(e) && e.message@ == cover_unavailable_message(),
    {
        Err(cover_unavailable())
    }

    /// Renders a document cover, optionally through LibreOffice: always refused in open core.
    pub fn render_cover_with_options(_file_path: &str, _allow_libreoffice: bool) -> (r: Result<
        Vec<u8>,
        ProUnavailable,
    >)
        ensures
            r matches Err(e) && e.message@ == cover_unavailable_message(),
    {
        Err(cover_unavailable())
    }

    /// Renders PDF pages to PNG buffers: none in open core.
    pub fn render_pdf_page_png_buffers(_file_path: &str, _max_pages: usize) -> (r: Result<
        Vec<Vec<u8>>,
        ProUnavailable,
    >)
        ensures
            r matches Ok(v) && v@.len() == 0,
    {
        Ok(Vec::new())
    }
}

/// Encodes raw samples as WebP: always refused in open core.
pub fn raw_to_webp(_samples: &[u8], _width: u32, _height: u32, _channels: u8) -> (r: Result<
    Vec<u8>,
    ProUnavailable,
>)
    ensures
        r matches Err(e) && e.message@ == cover_unavailable_message(),
{
    Err(cover_unavailable())
}

/// The EXIF orientation of an image file (unknown in open core).
pub fn detect_exif_orientation_fast(_path: &str) -> (r: Option<String>)
    ensures
        r is None,
{
    None
}

/// The NTFS zone identifier of a file: source, referrer and host URLs (none in open core).
pub fn detect_ntfs_zone_identifier(_path: &str) -> (r: (Option<String>, Option<String>, Option<String>))
    ensures
        r.0 is None && r.1 is None && r.2 is None,
{
    (None, None, None)
}

/// The NTFS zone identifier of a file, labelled in a language (none in open core).
pub fn detect_ntfs_zone_identifier_with_lang(_path: &str, _lang: Option<&str>) -> (r: (
    Option<String>,
    Option<String>,
    Option<String>,
))
    ensures
        r.0 is None && r.1 is None && r.2 is None,
{
    (None, None, None)
}

/// The security level of a file from its path and content preview
/// (always `public` in open core).
pub fn detect_security_level(_path_str: &str, _content_preview: &str) -> (r: String)
    ensures
        r@ == "public"@,
{
    "public".to_owned()
}

/// Vision features of the proprietary engine: MIME detection by extension,
/// empty OCR and tagging results.
pub struct OmniVisionEngine;

impl OmniVisionEngine {
    /// Detects a file's MIME type from its extension; never fails.
    pub fn detect_mime_type(path: &str) -> (r: Result<String, ProUnavailable>)
        ensures
            r matches Ok(m) && m@ == crate::vision::detect_mime_spec(path@),
    {
        Ok(crate::vision::detect_mime_by_extension(path))
    }

    /// Recognizes text in an image file with a model size (empty in open core).
    pub fn recognize_ocr_text_with_size(_image_path: &str, _model_size: &str) -> (r: Result<
        String,
        ProUnavailable,
    >)
        ensures
            r matches Ok(s) && s@.len() == 0,
    {
        Ok(String::new())
    }

    /// Recognizes text in an image file (empty in open core).
    pub fn recognize_ocr_text(_image_path: &str) -> (r: Result<String, ProUnavailable>)
        ensures
            r matches Ok(s) && s@.len() == 0,
    {
        Ok(String::new())
    }

    /// Recognizes text in encoded image bytes (empty in open core).
    pub fn recognize_ocr_image_bytes(_bytes: &[u8], _model_size: &str) -> (r: Result<
        String,
        ProUnavailable,
    >)
        ensures
            r matches Ok(s) && s@.len() == 0,
    {
        Ok(String::new())
    }

    /// Open-vocabulary visual tags of an image file (none in open core).
    pub fn extract_clip_visual_tags(_image_path: &str, _lang: Option<&str>, _top_k: usize) -> (r: Vec<
        String,
    >)
        ensures
            r@.len() == 0,
    {
        Vec::new()
    }

    /// High-confidence tags among NSFW tags and a rating (none in open core).
    pub fn derive_nsfw_high_confidence_tags(_tags: &[String], _rating: Option<&str>) -> (r: Vec<
        String,
    >)
        ensures
            r@.len() == 0,
    {
        Vec::new()
    }
}

} // verus!
