//! The decisions of document text extraction: when a PDF's text layer is
//! enough, whether and how far its pages are read by OCR, how OCR pages are
//! combined with the text layer, and the texts of the other document paths.
use vstd::prelude::*;
use vstd::utf8::encode_utf8;
use crate::text::{chars_of, extend_chars, extend_str, string_of, trim, trim_str, decimal};
use crate::extract_text::{truncate_spec, truncate_string};

verus! {

/// The number of UTF-8 bytes of a text.
pub open spec fn utf8_len(s: Seq<char>) -> nat {
    encode_utf8(s).len()
}

/// The UTF-8 byte length of the trimmed text.
fn trimmed_len(s: &str) -> (r: (String, usize))
    ensures
        r.0@ == trim(s@),
        r.1 == utf8_len(trim(s@)),
{
    let t = trim_str(s);
    let n = t.as_str().as_bytes().len();
    (t, n)
}

/// Whether a scanned PDF is passed over: no OCR of documents is allowed.
pub fn scanned_pdf_skipped(is_scanned: bool, max_document_ocr_items: i32) -> (r: bool)
    ensures
        r == (is_scanned && max_document_ocr_items == 0),
{
    is_scanned && max_document_ocr_items == 0
}

/// What to do with a PDF once its type and text layer are known.
#[derive(Clone, Copy, PartialEq, Eq, Debug, Structural)]
pub enum PdfStep {
    /// The text layer is kept and OCR skipped; `native` tells whether the
    /// PDF is text-based (otherwise the layer already fills the budget).
    TextLayer { native: bool },
    /// Pages are rendered and read by OCR, at most `page_limit` of them
    /// (zero: no limit).
    Ocr { page_limit: usize },
    /// OCR of documents is off: the text layer, whatever it holds.
    TextLayerOnly,
}

/// The step after the text layer: a text-based PDF with a text layer, or
/// a text layer that fills the budget, is kept as it is; otherwise pages
/// are read by OCR when documents may be, a negative item limit meaning no
/// limit.
pub open spec fn pdf_step_spec(is_text_pdf: bool, base: Seq<char>, max_bytes: nat, ocr_items: i32) -> PdfStep {
    let raw = utf8_len(trim(base));
    if (is_text_pdf && raw > 0) || (max_bytes > 0 && raw >= max_bytes) {
        PdfStep::TextLayer { native: is_text_pdf }
    } else if ocr_items != 0 {
        PdfStep::Ocr { page_limit: if ocr_items < 0 { 0 } else { ocr_items as usize } }
    } else {
        PdfStep::TextLayerOnly
    }
}

/// The step after a PDF's text layer (see `pdf_step_spec`).
pub fn pdf_step(is_text_pdf: bool, base_text: &str, max_bytes: usize, max_document_ocr_items: i32) -> (r:
    PdfStep)
    ensures
        r == pdf_step_spec(is_text_pdf, base_text@, max_bytes as nat, max_document_ocr_items),
{
    let (_, raw) = trimmed_len(base_text);
    if (is_text_pdf && raw > 0) || (max_bytes > 0 && raw >= max_bytes) {
        PdfStep::TextLayer { native: is_text_pdf }
    } else if max_document_ocr_items != 0 {
        let limit: usize = if max_document_ocr_items < 0 {
            0
        } else {
            max_document_ocr_items as usize
        };
        PdfStep::Ocr { page_limit: limit }
    } else {
        PdfStep::TextLayerOnly
    }
}

/// Why OCR was skipped for a kept text layer.
pub fn ocr_skip_reason(native: bool) -> (r: &'static str)
    ensures
        r@ == (if native {
            "native_text_pdf"@
        } else {
            "content_limit_reached"@
        }),
{
    if native {
        "native_text_pdf"
    } else {
        "content_limit_reached"
    }
}

/// Parts joined with a separator.
pub open spec fn join_sep(parts: Seq<Seq<char>>, sep: Seq<char>) -> Seq<char>
    decreases parts.len(),
{
    if parts.len() == 0 {
        Seq::empty()
    } else if parts.len() == 1 {
        parts[0]
    } else {
        join_sep(parts.drop_last(), sep) + sep + parts.last()
    }
}

/// The heading and text of an OCR page, numbered from one.
pub open spec fn ocr_page_spec(page_idx: nat, text: Seq<char>) -> Seq<char> {
    "## Page "@ + decimal(page_idx + 1) + "\n"@ + trim(text)
}

/// The text of a PDF read by OCR: the trimmed text layer, a rule and a
/// heading, then the pages; the pages alone without a text layer.
pub open spec fn pdf_ocr_text_spec(base: Seq<char>, pages: Seq<Seq<char>>) -> Seq<char> {
    let joined = join_sep(pages, "\n\n"@);
    if utf8_len(trim(base)) > 0 {
        trim(base) + "\n\n---\n\n### 🔍 多页 OCR 图像识别文本\n\n"@ + joined
    } else {
        joined
    }
}

/// OCR page texts gathered within a byte budget.
pub struct PdfOcrPages {
    /// The bytes gathered so far, the trimmed text layer included.
    pub current_bytes: usize,
    /// The budget: the content limit, or no limit.
    pub limit: usize,
    /// The page texts gathered, in order.
    pub pages: Vec<String>,
}

impl PdfOcrPages {
    /// A collection that starts from a text layer, under a content limit
    /// (zero: none).
    pub fn new(base_text: &str, max_bytes: usize) -> (r: PdfOcrPages)
        ensures
            r.current_bytes == utf8_len(trim(base_text@)),
            r.limit == (if max_bytes > 0 {
                max_bytes
            } else {
                usize::MAX
            }),
            r.pages@.len() == 0,
    {
        let (_, raw) = trimmed_len(base_text);
        PdfOcrPages {
            current_bytes: raw,
            limit: if max_bytes > 0 {
                max_bytes
            } else {
                usize::MAX
            },
            pages: Vec::new(),
        }
    }

    /// Whether another page is read: the budget is not yet used up.
    pub fn wants_more(&self) -> (r: bool)
        ensures
            r == (self.current_bytes < self.limit),
    {
        self.current_bytes < self.limit
    }

    /// Adds the OCR text of page `page_idx` (from zero), unless it is blank.
    pub fn add_page(&mut self, page_idx: usize, text: &str)
        requires
            page_idx < usize::MAX,
            old(self).current_bytes + utf8_len(trim(text@)) <= usize::MAX,
        ensures
            final(self).limit == old(self).limit,
            trim(text@).len() == 0 ==> final(self).current_bytes == old(self).current_bytes
                && final(self).pages.deep_view() == old(self).pages.deep_view(),
            trim(text@).len() > 0 ==> final(self).current_bytes == old(self).current_bytes
                + utf8_len(trim(text@)) && final(self).pages.deep_view() == old(
                self,
            ).pages.deep_view().push(ocr_page_spec(page_idx as nat, text@)),
    {
        let (t, n) = trimmed_len(text);
        if t.as_str().unicode_len() > 0 {
            let mut page = chars_of("## Page ");
            extend_chars(&mut page, &crate::text::decimal_chars((page_idx + 1) as u64));
            extend_str(&mut page, "\n");
            extend_str(&mut page, t.as_str());
            let ghost before = self.pages.deep_view();
            self.current_bytes = self.current_bytes + n;
            self.pages.push(string_of(&page));
            assert(self.pages.deep_view() =~= before.push(ocr_page_spec(page_idx as nat, text@)));
        }
    }

    /// The text of the PDF once its pages are read: none without a page,
    /// else the combination of text layer and pages within the budget.
    pub fn finish(&self, base_text: &str, max_bytes: usize) -> (r: Option<String>)
        ensures
            self.pages@.len() == 0 ==> r is None,
            self.pages@.len() > 0 ==> (r matches Some(t) && t@ == truncate_spec(
                pdf_ocr_text_spec(base_text@, self.pages.deep_view()),
                max_bytes as nat,
            )),
    {
        if self.pages.len() == 0 {
            return None;
        }
        let ghost pv = self.pages.deep_view();
        let mut joined: Vec<char> = Vec::new();
        let mut i: usize = 0;
        while i < self.pages.len()
            invariant
                pv == self.pages.deep_view(),
                i <= self.pages.len(),
                joined@ == join_sep(pv.take(i as int), "\n\n"@),
            decreases self.pages.len() - i,
        {
            proof {
                assert(pv.take(i + 1).drop_last() =~= pv.take(i as int));
                assert(pv.take(i + 1).last() == self.pages@[i as int]@);
            }
            if i > 0 {
                extend_str(&mut joined, "\n\n");
            }
            extend_str(&mut joined, self.pages[i].as_str());
            i = i + 1;
        }
        assert(pv.take(self.pages.len() as int) =~= pv);
        let (t, raw) = trimmed_len(base_text);
        let combined = if raw > 0 {
            let mut c = chars_of(t.as_str());
            extend_str(&mut c, "\n\n---\n\n### 🔍 多页 OCR 图像识别文本\n\n");
            extend_chars(&mut c, &joined);
            c
        } else {
            joined
        };
        let s = string_of(&combined);
        Some(truncate_string(s.as_str(), max_bytes))
    }
}

/// The text of a document from its text layer alone: none when the layer
/// is blank, else the layer within the budget.
pub fn text_layer_result(base_text: &str, max_bytes: usize) -> (r: Option<String>)
    ensures
        trim(base_text@).len() == 0 ==> r is None,
        trim(base_text@).len() > 0 ==> (r matches Some(t) && t@ == truncate_spec(
            base_text@,
            max_bytes as nat,
        )),
{
    let t = trim_str(base_text);
    if t.as_str().unicode_len() == 0 {
        None
    } else {
        Some(truncate_string(base_text, max_bytes))
    }
}

/// The text of an office document from its converted Markdown: none when
/// blank, else the trimmed Markdown within the budget.
pub fn office_text_result(markdown: &str, max_bytes: usize) -> (r: Option<String>)
    ensures
        trim(markdown@).len() == 0 ==> r is None,
        trim(markdown@).len() > 0 ==> (r matches Some(t) && t@ == truncate_spec(
            trim(markdown@),
            max_bytes as nat,
        )),
{
    let t = trim_str(markdown);
    if t.as_str().unicode_len() == 0 {
        None
    } else {
        Some(truncate_string(t.as_str(), max_bytes))
    }
}

/// Whether a DOCX text layer already fills the content budget, so that
/// its embedded images are not read by OCR.
pub fn docx_text_layer_fills_budget(markdown: &str, max_bytes: usize) -> (r: bool)
    ensures
        r == (max_bytes > 0 && utf8_len(trim(markdown@)) >= max_bytes),
{
    let (_, raw) = trimmed_len(markdown);
    max_bytes > 0 && raw >= max_bytes
}

/// The placeholder text of a document no converter could read.
pub open spec fn fallback_text_spec(title: Seq<char>, ext: Seq<char>) -> Seq<char> {
    "Document Title: "@ + title + "\nFormat: "@ + ext
        + "\nStatus: Binary document format structure processed."@
}

/// The placeholder text of an unreadable document, within the budget.
pub fn document_fallback_text(title: &str, ext: &str, max_bytes: usize) -> (r: String)
    ensures
        r@ == truncate_spec(fallback_text_spec(title@, ext@), max_bytes as nat),
{
    let mut c = chars_of("Document Title: ");
    extend_str(&mut c, title);
    extend_str(&mut c, "\nFormat: ");
    extend_str(&mut c, ext);
    extend_str(&mut c, "\nStatus: Binary document format structure processed.");
    let s = string_of(&c);
    truncate_string(s.as_str(), max_bytes)
}

} // verus!
