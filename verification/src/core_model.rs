//! Engine configuration, timing records and the cleanup request/response
//! types shared by the server and the cleanup engine.
use vstd::prelude::*;

pub use crate::paths::to_native_path_str;

verus! {

/// Analysis configuration.
pub struct OmniConfig {
    pub enable_office_cover: bool,
    /// Upper bound on OCR items in a document; 0 disables, -1 is unlimited.
    pub max_document_ocr_items: i32,
    pub enable_image_ocr: bool,
    /// OCR model size: `tiny`, `small` or `medium`.
    pub ocr_model_size: String,
    pub max_content_size_kb: usize,
    pub max_file_size_mb: u64,
    /// Analysis mode: `simple`, `document` or `full`.
    pub analysis_mode: String,
    /// Whether existing basic analysis data is reused.
    pub reuse_basic_analysis_data: bool,
    /// Items that cleanup scans always skip.
    pub excluded_items: Vec<String>,
}

impl Default for OmniConfig {
    fn default() -> (r: OmniConfig)
        ensures
            r.enable_office_cover == false,
            r.max_document_ocr_items == 0,
            r.enable_image_ocr == false,
            r.ocr_model_size@ == "tiny"@,
            r.max_content_size_kb == 30,
            r.max_file_size_mb == 100,
            r.analysis_mode@ == "full"@,
            r.reuse_basic_analysis_data == true,
            r.excluded_items@.len() == 0,
    {
        OmniConfig {
            enable_office_cover: false,
            max_document_ocr_items: 0,
            enable_image_ocr: false,
            ocr_model_size: "tiny".to_owned(),
            max_content_size_kb: 30,
            max_file_size_mb: 100,
            analysis_mode: "full".to_owned(),
            reuse_basic_analysis_data: true,
            excluded_items: Vec::new(),
        }
    }
}

/// Per-stage extraction timings, in milliseconds.
pub struct OmniBenchmark {
    pub total_ms: u64,
    pub magika_ms: Option<u64>,
    pub metadata_ms: Option<u64>,
    pub text_ms: Option<u64>,
    pub document_ms: Option<u64>,
    pub ocr_ms: Option<u64>,
    pub html_ms: Option<u64>,
    pub thumbnail_ms: Option<u64>,
}

impl Default for OmniBenchmark {
    fn default() -> (r: OmniBenchmark)
        ensures
            r.total_ms == 0,
            r.magika_ms is None,
            r.metadata_ms is None,
            r.text_ms is None,
            r.document_ms is None,
            r.ocr_ms is None,
            r.html_ms is None,
            r.thumbnail_ms is None,
    {
        OmniBenchmark {
            total_ms: 0,
            magika_ms: None,
            metadata_ms: None,
            text_ms: None,
            document_ms: None,
            ocr_ms: None,
            html_ms: None,
            thumbnail_ms: None,
        }
    }
}

/// A cleanup fix request (EXIF removal, video transcoding).
pub struct DuplicateFixRequest {
    pub action: String,
    pub paths: Vec<String>,
}

/// The answer to a cleanup fix request.
pub struct DuplicateFixResponse {
    pub success: bool,
    pub action: String,
    pub success_count: usize,
    pub failed_count: usize,
    pub processed_paths: Vec<String>,
    pub errors: Vec<String>,
}

impl DuplicateFixResponse {
    /// The answer to a fix request from the fix outcome
    /// `(succeeded, failed, processed paths, errors)`: successful exactly
    /// when nothing failed.
    pub fn from_outcome(action: String, outcome: (usize, usize, Vec<String>, Vec<String>)) -> (r:
        DuplicateFixResponse)
        ensures
            r.success == (outcome.1 == 0),
            r.action == action,
            r.success_count == outcome.0,
            r.failed_count == outcome.1,
            r.processed_paths == outcome.2,
            r.errors == outcome.3,
    {
        let (success_count, failed_count, processed_paths, errors) = outcome;
        DuplicateFixResponse {
            success: failed_count == 0,
            action,
            success_count,
            failed_count,
            processed_paths,
            errors,
        }
    }
}

} // verus!
