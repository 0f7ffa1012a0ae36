use firefly_omni::docx_archive::{
    docx_content, docx_xml_fallback_text, embedded_image_ocr_text, ArchiveError, DocxSource,
};
use std::io::{Cursor, Write};
use zip::write::SimpleFileOptions;
use zip::CompressionMethod;

fn archive(entries: &[(&str, &[u8])]) -> Vec<u8> {
    let mut w = zip::ZipWriter::new(Cursor::new(Vec::new()));
    let opts = SimpleFileOptions::default().compression_method(CompressionMethod::Stored);
    for (name, data) in entries {
        w.start_file(*name, opts).unwrap();
        w.write_all(data).unwrap();
    }
    w.finish().unwrap().into_inner()
}

const DOCUMENT: &str = "<w:document><w:body>\
<w:p><w:r><w:t>Hello</w:t></w:r></w:p>\
<w:p><w:r><w:drawing><a:blip r:embed=\"rId5\"/></w:drawing></w:r></w:p>\
<w:p><w:r><w:t>  World </w:t></w:r></w:p>\
</w:body></w:document>";

const RELS: &str = "<Relationships>\
<Relationship Id=\"rId5\" Type=\"image\" Target=\"media/image1.png\"/>\
<Relationship Id=\"rId6\" Type=\"styles\" Target=\"styles.xml\"/>\
</Relationships>";

fn sample_docx() -> Vec<u8> {
    archive(&[
        ("word/document.xml", DOCUMENT.as_bytes()),
        ("word/_rels/document.xml.rels", RELS.as_bytes()),
        ("word/media/image1.png", &[0x89, 0x50, 0x4E, 0x47]),
    ])
}

#[test]
fn bytes_that_are_no_archive_are_refused() {
    assert!(matches!(embedded_image_ocr_text(b"not a zip", 5, 30, "tiny", 100), Err(ArchiveError::NotAnArchive)));
    assert!(matches!(docx_xml_fallback_text(b"not a zip", 100), Err(ArchiveError::NotAnArchive)));
    assert!(docx_content(b"not a zip", 5, 30, "tiny", 100).is_none());
}

#[test]
fn paragraphs_are_read_with_images_counted() {
    let data = sample_docx();
    let t = match embedded_image_ocr_text(&data, 5, 30, "tiny", 1000) {
        Ok(t) => t,
        Err(_) => panic!("archive should be read"),
    };
    assert_eq!(t.text, "Hello\n\nWorld");
    assert_eq!(t.embedded_images, 1);
    assert_eq!(t.recognized, 0);
}

#[test]
fn plain_paragraphs_serve_as_fallback() {
    let data = sample_docx();
    let t = match docx_xml_fallback_text(&data, 1000) {
        Ok(t) => t,
        Err(_) => panic!("archive should be read"),
    };
    assert_eq!(t.text, "Hello\n\nWorld");
    assert_eq!(t.paragraphs, 2);
}

#[test]
fn content_source_follows_the_ocr_setting() {
    let data = sample_docx();
    match docx_content(&data, 5, 30, "tiny", 1000) {
        Some((text, DocxSource::EmbeddedOcr { embedded_images, recognized })) => {
            assert_eq!(text, "Hello\n\nWorld");
            assert_eq!((embedded_images, recognized), (1, 0));
        }
        _ => panic!("OCR reading expected"),
    }
    match docx_content(&data, 0, 30, "tiny", 1000) {
        Some((text, DocxSource::XmlFallback { paragraphs })) => {
            assert_eq!(text, "Hello\n\nWorld");
            assert_eq!(paragraphs, 2);
        }
        _ => panic!("plain reading expected"),
    }
}

#[test]
fn archive_without_document_gives_no_content() {
    let data = archive(&[("word/media/image1.png", &[1, 2, 3])]);
    let t = match docx_xml_fallback_text(&data, 1000) {
        Ok(t) => t,
        Err(_) => panic!("archive should be read"),
    };
    assert_eq!((t.text.as_str(), t.paragraphs), ("", 0));
    assert!(docx_content(&data, 5, 30, "tiny", 1000).is_none());
}

#[test]
fn docx_text_is_cut_to_the_budget() {
    let data = sample_docx();
    match docx_content(&data, 0, 30, "tiny", 5) {
        Some((text, _)) => assert_eq!(text, "Hello\n\n[Content truncated at 0 KB limit]"),
        None => panic!("text expected"),
    }
}
