//! DOCX archives held in memory: their entries read through the `zip`
//! crate, embedded images read by OCR within the budget, and the document
//! text with the OCR text in place, or the plain paragraph text as a
//! fallback.
use vstd::prelude::*;
use std::io::Read;
use crate::doc_plan::join_sep;
use crate::docx::{
    distinct_keys, docx_state_after, docx_text, docx_text_spec, image_relationships,
    image_relationships_spec, is_media_entry, map_entries, ocr_keys, ocr_keys_spec,
    read_docx_paragraphs, xml_events, DocxOcrBudget, XmlEvent,
};
use crate::extract_text::truncate_spec;
use crate::text::{trim, trim_str};

verus! {

/// The number of entries of the ZIP archive whose bytes are `data`, as
/// `zip::ZipArchive::new` reads its central directory; none when the bytes
/// are not an archive.
pub uninterp spec fn zip_entry_count(data: Seq<u8>) -> Option<usize>;

/// The name of entry `index` as `ZipArchive::by_index` opens it; none when
/// the archive or the entry cannot be opened.
pub uninterp spec fn zip_entry_name(data: Seq<u8>, index: usize) -> Option<Seq<char>>;

/// The contents of entry `index` (`ZipArchive::by_index`, then
/// `Read::read_to_end`); none when it cannot be opened or read.
pub uninterp spec fn zip_entry_bytes(data: Seq<u8>, index: usize) -> Option<Seq<u8>>;

/// What `ZipArchive::by_name` and `Read::read_to_string` read of the entry
/// named `name`: empty when the archive or the entry cannot be opened.
pub uninterp spec fn zip_named_text(data: Seq<u8>, name: Seq<char>) -> Seq<char>;

/// Opens the archive with `zip::ZipArchive::new` over the bytes and gives
/// its `len`. The result is named by `zip_entry_count`: it depends on the
/// bytes alone.
#[verifier::external_body]
fn archive_len(data: &[u8]) -> (r: Option<usize>)
    ensures
        r == zip_entry_count(data@),
{
    match zip::ZipArchive::new(std::io::Cursor::new(data)) {
        Ok(a) => Some(a.len()),
        Err(_) => None,
    }
}

/// The name of an entry (`ZipArchive::by_index`, `ZipFile::name`), named by
/// `zip_entry_name`.
#[verifier::external_body]
fn entry_name(data: &[u8], index: usize) -> (r: Option<String>)
    ensures
        r.deep_view() == zip_entry_name(data@, index),
{
    let mut a = zip::ZipArchive::new(std::io::Cursor::new(data)).ok()?;
    let f = a.by_index(index).ok()?;
    Some(f.name().to_string())
}

/// The contents of an entry (`ZipArchive::by_index`,
/// `Read::read_to_end`), named by `zip_entry_bytes`.
#[verifier::external_body]
fn entry_bytes(data: &[u8], index: usize) -> (r: Option<Vec<u8>>)
    ensures
        r.deep_view() == zip_entry_bytes(data@, index),
{
    let mut a = zip::ZipArchive::new(std::io::Cursor::new(data)).ok()?;
    let mut f = a.by_index(index).ok()?;
    let mut bytes = Vec::new();
    f.read_to_end(&mut bytes).ok()?;
    Some(bytes)
}

/// The text of a named entry (`ZipArchive::by_name`,
/// `Read::read_to_string`, whose error is ignored), named by
/// `zip_named_text`.
#[verifier::external_body]
fn entry_text(data: &[u8], name: &str) -> (r: String)
    ensures
        r@ == zip_named_text(data@, name@),
{
    let mut text = String::new();
    if let Ok(mut a) = zip::ZipArchive::new(std::io::Cursor::new(data)) {
        if let Ok(mut f) = a.by_name(name) {
            let _ = f.read_to_string(&mut text);
        }
    }
    text
}

/// Why a DOCX archive could not be read.
pub enum ArchiveError {
    /// The bytes are not a ZIP archive.
    NotAnArchive,
    /// An entry of the archive could not be opened.
    BadEntry,
}

/// Every entry below `n` can be opened.
pub open spec fn entries_open(data: Seq<u8>, n: usize) -> bool {
    forall|i: usize| i < n ==> (#[trigger] zip_entry_name(data, i)) is Some
}

/// The image relationships of the archive's document.
pub open spec fn archive_rels(data: Seq<u8>) -> Seq<(Seq<char>, Seq<char>)> {
    image_relationships_spec(zip_named_text(data, "word/_rels/document.xml.rels"@))
}

/// The archive's `word/document.xml`.
pub open spec fn archive_document(data: Seq<u8>) -> Seq<char> {
    zip_named_text(data, "word/document.xml"@)
}

/// The paragraphs of the archive's document with the given image
/// relationships and no OCR text: none when the document is empty.
pub open spec fn document_paragraphs(data: Seq<u8>, rels: Seq<(Seq<char>, Seq<char>)>) -> Seq<Seq<char>> {
    let doc = archive_document(data);
    if doc.len() == 0 {
        Seq::empty()
    } else {
        docx_state_after(xml_events(doc), rels, Seq::empty()).2
    }
}

/// The text of the OCR reading: the document's paragraphs (with the image
/// relationships) joined, within the budget.
pub open spec fn ocr_reading_text(data: Seq<u8>, max_bytes: nat) -> Seq<char> {
    docx_text_spec(document_paragraphs(data, archive_rels(data)), Seq::empty(), Seq::empty(), max_bytes)
}

/// The text of the plain reading: the document's paragraphs joined by blank
/// lines, within the budget.
pub open spec fn plain_reading_text(data: Seq<u8>, max_bytes: nat) -> Seq<char> {
    truncate_spec(join_sep(document_paragraphs(data, Seq::empty()), "\n\n"@), max_bytes)
}

/// The text of a DOCX with the OCR text of its embedded images in place.
pub struct DocxOcrText {
    pub text: String,
    /// Distinct relationships that point at images.
    pub embedded_images: usize,
    /// OCR texts filed, one per key.
    pub recognized: usize,
}

/// Files an image's OCR text under each of its keys.
fn file_ocr_text(ocr: &mut Vec<(String, String)>, name: &str, text: &str)
    ensures
        final(ocr).deep_view() == old(ocr).deep_view() + ocr_keys_spec(name@).map_values(
            |k: Seq<char>| (k, text@),
        ),
{
    let keys = ocr_keys(name);
    let ghost kv = keys.deep_view();
    let ghost start = ocr.deep_view();
    let mut i: usize = 0;
    while i < keys.len()
        invariant
            kv == keys.deep_view(),
            i <= keys.len(),
            ocr.deep_view() == start + kv.take(i as int).map_values(|k: Seq<char>| (k, text@)),
        decreases keys.len() - i,
    {
        let ghost before = ocr.deep_view();
        ocr.push((keys[i].clone(), text.to_owned()));
        proof {
            assert(ocr.deep_view() =~= before.push((kv[i as int], text@)));
            assert(kv.take(i + 1).map_values(|k: Seq<char>| (k, text@)) =~= kv.take(i as int).map_values(
                |k: Seq<char>| (k, text@),
            ).push((kv[i as int], text@)));
        }
        i = i + 1;
    }
    assert(kv.take(keys.len() as int) =~= kv);
}

/// The text of a DOCX held in memory with the OCR text of its embedded
/// images in place. Entries are opened in order, as long as OCR is on and
/// the budget allows; an entry that cannot be opened fails the whole read.
/// The open-core recognizer finds no text in any image, so nothing is
/// recognized and the text is that of the document's paragraphs (or empty
/// when the archive has no `word/document.xml`), within the byte budget.
pub fn embedded_image_ocr_text(
    data: &[u8],
    max_items: i32,
    max_content_size_kb: usize,
    model_size: &str,
    max_bytes: usize,
) -> (r: Result<DocxOcrText, ArchiveError>)
    requires
        max_content_size_kb * 1024 <= usize::MAX,
    ensures
        (r matches Err(ArchiveError::NotAnArchive)) <==> zip_entry_count(data@) is None,
        (r matches Err(ArchiveError::BadEntry)) <==> (zip_entry_count(data@) matches Some(n)
            && max_items != 0 && !entries_open(data@, n)),
        r matches Ok(t) ==> {
            &&& t.recognized == 0
            &&& t.embedded_images == distinct_keys(archive_rels(data@)).len()
            &&& t.text@ == ocr_reading_text(data@, max_bytes as nat)
        },
{
    let n = match archive_len(data) {
        Some(n) => n,
        None => {
            return Err(ArchiveError::NotAnArchive);
        },
    };
    let rels_xml = entry_text(data, "word/_rels/document.xml.rels");
    let rels = image_relationships(rels_xml.as_str());
    let mut budget = DocxOcrBudget::new(max_items, max_content_size_kb);
    let mut ocr: Vec<(String, String)> = Vec::new();
    if budget.enabled() {
        let mut i: usize = 0;
        while i < n
            invariant
                i <= n,
                zip_entry_count(data@) == Some(n),
                budget.max_items == max_items,
                budget.max_items != 0,
                budget.recognized == 0,
                budget.accumulated == 0,
                ocr@.len() == 0,
                forall|k: usize| k < i ==> (#[trigger] zip_entry_name(data@, k)) is Some,
            ensures
                i == n,
            decreases n - i,
        {
            if !budget.may_continue() {
                break;
            }
            let name = match entry_name(data, i) {
                Some(s) => s,
                None => {
                    return Err(ArchiveError::BadEntry);
                },
            };
            if is_media_entry(name.as_str()) {
                match entry_bytes(data, i) {
                    Some(bytes) => {
                        if bytes.len() > 0 {
                            match crate::pro_stub::OmniVisionEngine::recognize_ocr_image_bytes(
                                bytes.as_slice(),
                                model_size,
                            ) {
                                Ok(text) => {
                                    proof {
                                        assert(text@ =~= Seq::<char>::empty());
                                        assert(crate::doc_plan::utf8_len(text@) == 0);
                                        assert(trim(text@).len() == 0);
                                    }
                                    if budget.record(text.as_str()) {
                                        file_ocr_text(&mut ocr, name.as_str(), text.as_str());
                                    }
                                },
                                Err(_) => {},
                            }
                        }
                    },
                    None => {},
                }
            }
            i = i + 1;
        }
    }
    let ghost none: Seq<(Seq<char>, Seq<char>)> = Seq::empty();
    assert(ocr.deep_view() =~= none);
    let document_xml = entry_text(data, "word/document.xml");
    let paragraphs = if document_xml.as_str().unicode_len() == 0 {
        let p: Vec<String> = Vec::new();
        assert(p.deep_view() =~= docx_state_after(Seq::empty(), rels.deep_view(), none).2);
        p
    } else {
        read_docx_paragraphs(document_xml.as_str(), &rels, &ocr)
    };
    let entries = map_entries(&ocr);
    assert(entries.deep_view() =~= none);
    let text = docx_text(&paragraphs, "", &entries, max_bytes);
    let images = map_entries(&rels).len();
    proof {
        reveal_strlit("");
        assert(""@ =~= Seq::<char>::empty());
        assert(paragraphs.deep_view() == document_paragraphs(data@, archive_rels(data@)));
    }
    Ok(DocxOcrText { text, embedded_images: images, recognized: entries.len() })
}

/// The text of a DOCX from its paragraphs alone, and their number.
pub struct DocxPlainText {
    pub text: String,
    pub paragraphs: usize,
}

/// The plain paragraph text of a DOCX held in memory: the paragraphs of
/// `word/document.xml` joined by blank lines, within the byte budget; empty
/// when the archive has no such entry. Fails only when the bytes are not an
/// archive.
pub fn docx_xml_fallback_text(data: &[u8], max_bytes: usize) -> (r: Result<DocxPlainText, ArchiveError>)
    ensures
        r is Err <==> zip_entry_count(data@) is None,
        r matches Err(e) ==> e is NotAnArchive,
        r matches Ok(t) ==> {
            &&& t.text@ == plain_reading_text(data@, max_bytes as nat)
            &&& t.paragraphs == document_paragraphs(data@, Seq::empty()).len()
            &&& archive_document(data@).len() == 0 ==> t.text@.len() == 0
        },
{
    if archive_len(data).is_none() {
        return Err(ArchiveError::NotAnArchive);
    }
    let ghost none: Seq<(Seq<char>, Seq<char>)> = Seq::empty();
    let document_xml = entry_text(data, "word/document.xml");
    if document_xml.as_str().unicode_len() == 0 {
        proof {
            let e: Seq<Seq<char>> = Seq::empty();
            assert(join_sep(e, "\n\n"@) =~= Seq::<char>::empty());
            assert(vstd::utf8::encode_utf8(Seq::<char>::empty()) =~= Seq::<u8>::empty());
            reveal_strlit("");
        }
        return Ok(DocxPlainText { text: String::new(), paragraphs: 0 });
    }
    let no_pairs: Vec<(String, String)> = Vec::new();
    assert(no_pairs.deep_view() =~= none);
    let paragraphs = read_docx_paragraphs(document_xml.as_str(), &no_pairs, &no_pairs);
    let text = docx_text(&paragraphs, "", &no_pairs, max_bytes);
    proof {
        reveal_strlit("");
        assert(""@ =~= Seq::<char>::empty());
        let ps = document_paragraphs(data@, none);
        assert(ps == paragraphs.deep_view());
        assert(ps.len() == paragraphs@.len());
        if join_sep(ps, "\n\n"@).len() == 0 {
            assert(join_sep(ps, "\n\n"@) =~= Seq::<char>::empty());
        }
    }
    Ok(DocxPlainText { text, paragraphs: paragraphs.len() })
}

/// Which reading produced the text of a DOCX.
pub enum DocxSource {
    /// The paragraphs with the embedded images' OCR text in place.
    EmbeddedOcr { embedded_images: usize, recognized: usize },
    /// The plain paragraphs.
    XmlFallback { paragraphs: usize },
}

/// Whether the OCR reading gives text: OCR is on, the archive and all its
/// entries open, and the text is not blank.
pub open spec fn ocr_reading_ok(data: Seq<u8>, max_items: i32, max_bytes: nat) -> bool {
    &&& zip_entry_count(data) matches Some(n)
    &&& max_items != 0
    &&& entries_open(data, n)
    &&& trim(ocr_reading_text(data, max_bytes)).len() > 0
}

/// Whether the plain reading gives text: the archive opens and the text is
/// not blank.
pub open spec fn plain_reading_ok(data: Seq<u8>, max_bytes: nat) -> bool {
    &&& zip_entry_count(data) is Some
    &&& trim(plain_reading_text(data, max_bytes)).len() > 0
}

/// The text of a DOCX held in memory: with document OCR on (a non-zero item
/// limit), the text with the embedded images' OCR text in place, when it
/// can be read and is not blank; otherwise the plain paragraph text, when
/// it can be read and is not blank; otherwise none, and the caller falls
/// back to a placeholder.
pub fn docx_content(
    data: &[u8],
    max_items: i32,
    max_content_size_kb: usize,
    model_size: &str,
    max_bytes: usize,
) -> (r: Option<(String, DocxSource)>)
    requires
        max_content_size_kb * 1024 <= usize::MAX,
    ensures
        ocr_reading_ok(data@, max_items, max_bytes as nat) ==> (r matches Some((t, DocxSource::EmbeddedOcr { embedded_images, recognized }))
            && t@ == ocr_reading_text(data@, max_bytes as nat)
            && embedded_images == distinct_keys(archive_rels(data@)).len() && recognized == 0),
        !ocr_reading_ok(data@, max_items, max_bytes as nat) && plain_reading_ok(data@, max_bytes as nat)
            ==> (r matches Some((t, DocxSource::XmlFallback { paragraphs }))
            && t@ == plain_reading_text(data@, max_bytes as nat)
            && paragraphs == document_paragraphs(data@, Seq::empty()).len()),
        !ocr_reading_ok(data@, max_items, max_bytes as nat) && !plain_reading_ok(data@, max_bytes as nat) ==> r is None,
        zip_entry_count(data@) is None ==> r is None,
        archive_document(data@).len() == 0 ==> r is None,
{
    if max_items != 0 {
        match embedded_image_ocr_text(data, max_items, max_content_size_kb, model_size, max_bytes) {
            Ok(t) => {
                proof {
                    if archive_document(data@).len() == 0 {
                        let e: Seq<Seq<char>> = Seq::empty();
                        assert(crate::doc_plan::join_sep(e, "\n\n"@) =~= Seq::<char>::empty());
                        assert(vstd::utf8::encode_utf8(Seq::<char>::empty()) =~= Seq::<u8>::empty());
                        assert(t.text@ =~= Seq::<char>::empty());
                    }
                }
                if trim_str(t.text.as_str()).as_str().unicode_len() > 0 {
                    return Some((
                        t.text,
                        DocxSource::EmbeddedOcr { embedded_images: t.embedded_images, recognized: t.recognized },
                    ));
                }
            },
            Err(_) => {},
        }
    }
    match docx_xml_fallback_text(data, max_bytes) {
        Ok(t) => {
            if trim_str(t.text.as_str()).as_str().unicode_len() > 0 {
                Some((t.text, DocxSource::XmlFallback { paragraphs: t.paragraphs }))
            } else {
                None
            }
        },
        Err(_) => None,
    }
}

} // verus!
