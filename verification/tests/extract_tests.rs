use firefly_omni::doc_plan::{
    docx_text_layer_fills_budget, document_fallback_text, ocr_skip_reason, office_text_result,
    pdf_step, scanned_pdf_skipped, text_layer_result, PdfOcrPages, PdfStep,
};
use firefly_omni::docx::{
    docx_text, image_relationships, is_media_entry, lookup_last_exec, map_entries,
    ocr_keys, paragraphs_of_events, read_docx_paragraphs, DocxOcrBudget, XmlEvent,
};
use firefly_omni::extract_plan::{
    archive_fields, extraction_header, clock_hh_mm_ss, clock_mm_ss, content_budget, document_fields,
    exceeds_size_limit, executable_fields, extension_label, extraction_benchmark, file_traits,
    font_fields, magika_group, magika_label, parse_u64, should_extract_content, text_layer_ms,
    text_stats, video_fields,
};
use firefly_omni::extract_text::{
    format_pdf_date, is_plain_text_or_code_ext, truncate_string, OmniExtractor,
};
use firefly_omni::text_decode::decode_plain_text;
use firefly_omni::vision::{detect_mime_by_extension, sniff_mime, OmniVisionEngine};
use firefly_omni::text_lines::{builtin_keys, detect_image_line_regions, keys_from_text, GrayImage};
use firefly_omni::tool_paths::{
    exiftool_exe_name, path_dir_names, path_entries, platform_dir, program_dir_candidates,
    user_dir_candidates, working_dir_candidates,
};
use firefly_omni::extract_text::pdf_info_entry;
use firefly_omni::tool_paths::{exiftool_query_command, is_ready_line, keep_tool_field, ToolValue};
use firefly_omni::audio_tools::{ asr_args, asr_exe_candidates, asr_model_candidates, audio_cache_key, ffmpeg_args, ffmpeg_candidates, media_tool_candidates, prepended_path, transcript_of, };
use firefly_omni::hashing::{md5_hex, phash_from_samples};
use firefly_omni::text_lines::{ocr_model_ancestor_dirs, ocr_model_dirs, ocr_model_markers};

fn strings(v: &[&str]) -> Vec<String> {
    v.iter().map(|s| s.to_string()).collect()
}

#[test]
fn test_replace_embedded_image_ocr() {
    let markdown = "# Title\n\n![img1.png]\nSome description...\n![img2.jpg]";
    let map = vec![
        ("img1.png".to_string(), "识别结果一".to_string()),
        ("img2.jpg".to_string(), "Line 1\nLine 2".to_string()),
    ];

    let result = OmniExtractor::replace_embedded_image_ocr(markdown, &map);
    assert!(result.contains("📷 **[图片内提取文字]**"));
    assert!(result.contains("识别结果一"));
    assert!(result.contains("> Line 1"));
    assert!(result.contains("> Line 2"));
}

#[test]
fn ocr_block_quotes_each_line() {
    let block = OmniExtractor::format_markitdown_ocr_block("  Line 1\nLine 2  ");
    assert_eq!(block, "\n\n> 📷 **[图片内提取文字]**\n>\n> Line 1\n>\n> Line 2\n\n");
    assert_eq!(OmniExtractor::format_markitdown_ocr_block("   "), "");
}

#[test]
fn blank_ocr_text_leaves_placeholder() {
    let map = vec![("a.png".to_string(), "  ".to_string())];
    assert_eq!(OmniExtractor::replace_embedded_image_ocr("x ![a.png] y", &map), "x ![a.png] y");
}

#[test]
fn ocr_text_goes_only_to_placeholders() {
    let map = vec![("a.png".to_string(), "text".to_string())];
    assert_eq!(OmniExtractor::replace_embedded_image_ocr("no images here", &map), "no images here");
    assert_eq!(
        OmniExtractor::replace_embedded_image_ocr("x ![a.png] y", &map),
        "x \n\n> 📷 **[图片内提取文字]**\n>\n> text\n\n y"
    );
}

#[test]
fn truncation_keeps_short_text_and_cuts_at_char_boundary() {
    assert_eq!(truncate_string("hello", 5), "hello");
    // "测" takes three bytes: a budget of four keeps one character
    assert_eq!(
        truncate_string("测试", 4),
        "测\n\n[Content truncated at 0 KB limit]"
    );
    let long = "a".repeat(3000);
    let cut = truncate_string(&long, 2048);
    assert!(cut.starts_with(&"a".repeat(2048)));
    assert!(cut.ends_with("[Content truncated at 2 KB limit]"));
}

#[test]
fn test_extract_plain_text_utf8() {
    assert_eq!(detect_mime_by_extension("omni_test_utf8.txt"), "text/plain");
    let bytes = "Hello Firefly Omni! 测试中文文本\n".as_bytes();
    let text = decode_plain_text(bytes, 30 * 1024);
    assert!(text.contains("Hello Firefly Omni!"));
    assert!(text.contains("测试中文文本"));
}

#[test]
fn test_extract_plain_text_utf8_truncation() {
    assert_eq!(detect_mime_by_extension("omni_test_utf8_long.txt"), "text/plain");
    let sample = "角色：你是一位海报设计大师。智能分析系统匹配规则。\n";
    let text = sample.repeat(1000);
    let out = decode_plain_text(text.as_bytes(), 30 * 1024);
    assert!(out.contains("海报设计大师"));
    assert!(out.contains("[Content truncated at 30 KB limit]"));
}

#[test]
fn test_extract_binary_nul_detection() {
    let out = decode_plain_text(b"Header\x00BinaryStream123456789", 30 * 1024);
    assert!(out.contains("[Binary File] NUL byte detected"));
}

#[test]
fn plain_text_boms_select_the_encoding() {
    assert_eq!(decode_plain_text(b"\xEF\xBB\xBFabc", 100), "abc");
    assert_eq!(decode_plain_text(b"\xFF\xFEa\x00b\x00", 100), "ab");
    assert_eq!(decode_plain_text(b"\xFE\xFF\x00a\x00b", 100), "ab");
    assert_eq!(decode_plain_text(b"", 100), "");
}

#[test]
fn plain_text_utf16_without_bom_is_decoded() {
    let bytes: Vec<u8> = "hello".encode_utf16().flat_map(|u| u.to_le_bytes()).collect();
    assert_eq!(decode_plain_text(&bytes, 100), "hello");
}

#[test]
fn plain_text_gbk_is_decoded() {
    // "中文" in GBK
    assert_eq!(decode_plain_text(&[0xD6, 0xD0, 0xCE, 0xC4], 100), "中文");
}

#[test]
fn pdf_dates_are_formatted() {
    assert_eq!(format_pdf_date("D:20250407143317+08'00'"), "2025:04:07 14:33:17+08:00");
    assert_eq!(format_pdf_date("D:20250407143317"), "2025:04:07 14:33:17");
    assert_eq!(format_pdf_date("2025"), "2025");
    assert_eq!(format_pdf_date("D:2025"), "2025");
}

#[test]
fn text_extensions_are_recognized() {
    assert!(is_plain_text_or_code_ext("rs"));
    assert!(is_plain_text_or_code_ext("md"));
    assert!(!is_plain_text_or_code_ext("pdf"));
}

#[test]
fn file_traits_classify_by_extension_and_mime() {
    let t = file_traits("pdf", "application/octet-stream");
    assert!(t.is_pdf && !t.is_text_or_code && !t.is_image);
    let t = file_traits("png", "image/png");
    assert!(t.is_image && !t.is_text_or_code);
    let t = file_traits("xyz", "application/octet-stream");
    assert!(t.is_text_or_code);
    let t = file_traits("dll", "application/octet-stream");
    assert!(t.is_exe);
    let t = file_traits("zip", "application/zip");
    assert!(t.is_archive && t.is_text_or_code);
    assert!(file_traits("sqlite", "").is_database);
    assert!(file_traits("onnx", "").is_model);
    assert!(file_traits("woff2", "").is_font);
    assert!(file_traits("docx", "").is_office);
    assert!(file_traits("mp3", "").is_audio);
    assert!(file_traits("mkv", "").is_video);
}

#[test]
fn magika_label_and_group() {
    assert_eq!(magika_label(""), "bin");
    assert_eq!(magika_label("txt"), "txt");
    assert_eq!(magika_group("png", "image/png"), "image");
    assert_eq!(magika_group("docx", "application/zip"), "document font");
    assert_eq!(magika_group("", "audio/mpeg"), "audio");
    assert_eq!(magika_group("", "video/mp4"), "video");
    assert_eq!(magika_group("rs", "text/plain"), "code/text");
}

#[test]
fn content_is_read_by_mode() {
    let pdf = file_traits("pdf", "application/pdf");
    assert!(!should_extract_content("SIMPLE", &pdf));
    assert!(should_extract_content("full", &pdf));
    let txt = file_traits("txt", "text/plain");
    assert!(should_extract_content("simple", &txt));
}

#[test]
fn size_limits_and_budgets() {
    assert!(!exceeds_size_limit(100 * 1024 * 1024, 100));
    assert!(exceeds_size_limit(100 * 1024 * 1024 + 1, 100));
    assert_eq!(content_budget(30), 30720);
}

#[test]
fn document_fields_take_author_from_creator() {
    let keys = strings(&["Creator", "PageCount", "Title"]);
    let d = document_fields(&keys);
    assert_eq!(d.author.as_deref(), Some("Creator"));
    assert_eq!(d.creator.as_deref(), Some("Creator"));
    assert_eq!(d.title.as_deref(), Some("Title"));
    assert_eq!(d.page_count.as_deref(), Some("PageCount"));
    assert!(d.subject.is_none());
}

#[test]
fn executable_archive_font_video_fields() {
    let keys = strings(&["Company", "Description", "FileType", "FamilyName", "FrameRate"]);
    let exe = executable_fields(&file_traits("txt", "text/plain"), &keys);
    assert!(!exe.applies);
    assert_eq!(exe.company_name.as_deref(), Some("Company"));
    assert_eq!(exe.file_description.as_deref(), Some("Description"));
    let exe = executable_fields(&file_traits("exe", ""), &keys);
    assert!(exe.applies);
    let arc = archive_fields(&file_traits("zip", ""), &keys);
    assert!(arc.applies);
    assert_eq!(arc.format.as_deref(), Some("FileType"));
    let font = font_fields(&file_traits("txt", ""), &keys);
    assert!(!font.applies);
    assert_eq!(font.font_name.as_deref(), Some("FamilyName"));
    let video = video_fields(&keys);
    assert_eq!(video.frame_rate.as_deref(), Some("FrameRate"));
    assert!(!video.has_dimensions);
}

#[test]
fn counts_parse_like_std() {
    assert_eq!(parse_u64("42"), Some(42));
    assert_eq!(parse_u64("+7"), Some(7));
    assert_eq!(parse_u64(""), None);
    assert_eq!(parse_u64("+"), None);
    assert_eq!(parse_u64("-1"), None);
    assert_eq!(parse_u64(" 1"), None);
    assert_eq!(parse_u64("18446744073709551615"), Some(u64::MAX));
    assert_eq!(parse_u64("18446744073709551616"), None);
}

#[test]
fn text_stats_count_lines_words_chars() {
    assert!(text_stats("").is_none());
    let s = text_stats("one two\nthree\n").unwrap();
    assert_eq!((s.line_count, s.word_count, s.char_count), (2, 3, 14));
    let s = text_stats("a\n\nb").unwrap();
    assert_eq!((s.line_count, s.word_count, s.char_count), (3, 2, 4));
}

#[test]
fn durations_are_clock_formatted() {
    assert_eq!(clock_mm_ss(65), "01:05");
    assert_eq!(clock_mm_ss(6000), "100:00");
    assert_eq!(clock_hh_mm_ss(3725), "01:02:05");
}

#[test]
fn benchmark_takes_longest_stage() {
    let b = extraction_benchmark(3, 0, None, Some(40), Some(12));
    assert_eq!(b.total_ms, 40);
    assert_eq!(b.text_ms, Some(40));
    assert_eq!(b.metadata_ms, None);
    assert_eq!(b.magika_ms, Some(3));
    assert_eq!(text_layer_ms(50, Some(60)), 0);
    assert_eq!(text_layer_ms(50, Some(20)), 30);
}

#[test]
fn database_labels_are_upper_case() {
    assert_eq!(extension_label("sqlite3"), "SQLITE3");
    assert_eq!(extension_label("gguf"), "GGUF");
}

#[test]
fn pdf_steps_follow_text_layer_and_ocr_setting() {
    assert!(scanned_pdf_skipped(true, 0));
    assert!(!scanned_pdf_skipped(true, 3));
    assert_eq!(pdf_step(true, "text", 100, 0), PdfStep::TextLayer { native: true });
    assert_eq!(pdf_step(false, "abcd", 4, 0), PdfStep::TextLayer { native: false });
    assert_eq!(pdf_step(false, "  ", 100, -1), PdfStep::Ocr { page_limit: 0 });
    assert_eq!(pdf_step(false, "", 100, 5), PdfStep::Ocr { page_limit: 5 });
    assert_eq!(pdf_step(false, "", 100, 0), PdfStep::TextLayerOnly);
    assert_eq!(ocr_skip_reason(true), "native_text_pdf");
    assert_eq!(ocr_skip_reason(false), "content_limit_reached");
}

#[test]
fn pdf_ocr_pages_are_combined_within_budget() {
    let mut pages = PdfOcrPages::new("base", 100000);
    assert!(pages.wants_more());
    pages.add_page(0, "  first  ");
    pages.add_page(1, "   ");
    pages.add_page(2, "third");
    assert_eq!(pages.pages.len(), 2);
    let text = pages.finish("base", 100000).unwrap();
    assert_eq!(
        text,
        "base\n\n---\n\n### 🔍 多页 OCR 图像识别文本\n\n## Page 1\nfirst\n\n## Page 3\nthird"
    );
    let empty = PdfOcrPages::new("", 0);
    assert!(empty.finish("", 0).is_none());
    let mut small = PdfOcrPages::new("", 3);
    small.add_page(0, "abcd");
    assert!(!small.wants_more());
}

#[test]
fn document_text_results() {
    assert!(text_layer_result("  ", 10).is_none());
    assert_eq!(text_layer_result(" a ", 10).as_deref(), Some(" a "));
    assert_eq!(office_text_result(" a ", 10).as_deref(), Some("a"));
    assert!(docx_text_layer_fills_budget("abcd", 4));
    assert!(!docx_text_layer_fills_budget("abcd", 0));
    assert_eq!(
        document_fallback_text("report", "doc", 1000),
        "Document Title: report\nFormat: doc\nStatus: Binary document format structure processed."
    );
}

#[test]
fn docx_image_relationships_are_filtered() {
    let rels = r#"<Relationships><Relationship Id="rId1" Type="t" Target="media/image1.png"/><Relationship Id="rId2" Type="t" Target="styles.xml"/><Relationship Id="rId3" Type="t" Target="media/pic.JPG"/></Relationships>"#;
    let r = image_relationships(rels);
    assert_eq!(
        r,
        vec![
            ("rId1".to_string(), "media/image1.png".to_string()),
            ("rId3".to_string(), "media/pic.JPG".to_string())
        ]
    );
}

#[test]
fn docx_paragraphs_put_ocr_in_place() {
    let rels = vec![("rId1".to_string(), "media/image1.png".to_string())];
    let ocr = vec![("image1.png".to_string(), "图中文字".to_string())];
    let xml = r#"<w:document><w:body><w:p><w:r><w:t>Hello</w:t></w:r><w:r><w:drawing><a:blip r:embed="rId1"/></w:drawing></w:r></w:p><w:p><w:r><w:t>  </w:t></w:r></w:p><w:p><w:r><w:t>World</w:t></w:r></w:p></w:body></w:document>"#;
    let paras = read_docx_paragraphs(xml, &rels, &ocr);
    assert_eq!(paras.len(), 2);
    assert!(paras[0].starts_with("Hello"));
    assert!(paras[0].contains("> 图中文字"));
    assert_eq!(paras[1], "World");
    let text = docx_text(&paras, "", &ocr, 100000);
    assert!(text.contains("Hello"));
    assert!(text.contains("\n\nWorld"));
}

#[test]
fn docx_events_are_assembled_into_paragraphs() {
    let events = vec![
        XmlEvent::Start { name: "w:p".to_string(), attrs: vec![] },
        XmlEvent::Text(Some("outside".to_string())),
        XmlEvent::Start { name: "w:t".to_string(), attrs: vec![] },
        XmlEvent::Text(Some(" inside ".to_string())),
        XmlEvent::End { name: "w:t".to_string() },
        XmlEvent::End { name: "w:p".to_string() },
    ];
    assert_eq!(paragraphs_of_events(&events, &vec![], &vec![]), vec!["inside".to_string()]);
}

#[test]
fn docx_fallback_uses_base_markdown_with_ocr() {
    let entries = vec![("a.png".to_string(), "OCR".to_string())];
    let text = docx_text(&vec![], "see ![a.png]", &entries, 1000);
    assert!(text.contains("> OCR"));
    assert_eq!(docx_text(&vec![], "plain", &vec![], 1000), "plain");
}

#[test]
fn docx_media_entries_and_keys() {
    assert!(is_media_entry("word/media/image1.png"));
    assert!(is_media_entry("Media/x.png"));
    assert!(!is_media_entry("word/document.xml"));
    assert_eq!(
        ocr_keys("word/media/image1.png"),
        strings(&["word/media/image1.png", "media/image1.png", "image1.png"])
    );
}

#[test]
fn docx_ocr_budget_stops_at_limits() {
    let mut b = DocxOcrBudget::new(2, 0);
    assert!(b.enabled());
    assert!(b.record("one"));
    assert!(!b.record("  "));
    assert!(b.may_continue());
    assert!(b.record("two"));
    assert!(!b.may_continue());
    let mut c = DocxOcrBudget::new(-1, 1);
    c.record(&"x".repeat(1024));
    assert!(!c.may_continue());
    assert!(!DocxOcrBudget::new(0, 1).enabled());
}

#[test]
fn map_entries_keep_last_values_once() {
    let pairs = vec![
        ("a".to_string(), "1".to_string()),
        ("b".to_string(), "2".to_string()),
        ("a".to_string(), "3".to_string()),
    ];
    assert_eq!(
        map_entries(&pairs),
        vec![("a".to_string(), "3".to_string()), ("b".to_string(), "2".to_string())]
    );
    assert_eq!(lookup_last_exec(&pairs, "a").as_deref(), Some("3"));
    assert!(lookup_last_exec(&pairs, "c").is_none());
}

#[test]
fn exiftool_places() {
    assert_eq!(exiftool_exe_name(true), "exiftool.exe");
    assert_eq!(platform_dir("macos"), "darwin");
    assert_eq!(platform_dir("freebsd"), "freebsd");
    assert_eq!(path_entries("/a:/b::", false), strings(&["/a", "/b", "", ""]));
    assert_eq!(path_entries("", true), strings(&[""]));
    assert_eq!(path_dir_names(true), strings(&["exiftool.exe", "exiftool"]));
    assert_eq!(
        user_dir_candidates(true, "linux", "exiftool"),
        strings(&[
            ".config/firefly-ai-folder/bin/linux/exiftool",
            ".config/firefly-ai-folder/bin/exiftool"
        ])
    );
    let p = program_dir_candidates("linux", "exiftool");
    assert_eq!(p.len(), 13);
    assert_eq!(p[0], "build/extraResources/bin/exiftool/exiftool");
    assert_eq!(p[12], "exiftool");
    let w = working_dir_candidates("win32", "exiftool.exe");
    assert_eq!(w.len(), 17);
    assert_eq!(w[12], "crates/omni-extract/bin/win32/exiftool.exe");
    assert_eq!(w[16], "node_modules/exiftool-vendored.exe/bin/exiftool.exe");
}

#[test]
fn text_line_regions_from_edges() {
    // 90 columns of alternating stripes on rows 10..20, flat elsewhere
    let (w, h) = (90u32, 40u32);
    let mut pixels = vec![255u8; (w * h) as usize];
    for y in 10..20 {
        for x in 0..w {
            pixels[(y * w + x) as usize] = if x % 2 == 0 { 0 } else { 255 };
        }
    }
    let img = GrayImage { width: w, height: h, pixels };
    assert_eq!(detect_image_line_regions(&img), vec![(8, 22)]);
    let flat = GrayImage { width: 10, height: 100, pixels: vec![0u8; 1000] };
    assert_eq!(detect_image_line_regions(&flat), vec![(0, 44), (44, 88), (88, 100)]);
    let empty = GrayImage { width: 0, height: 5, pixels: vec![] };
    assert!(detect_image_line_regions(&empty).is_empty());
}

#[test]
fn ocr_dictionary_from_keys_file() {
    assert_eq!(keys_from_text("a\r\nb\n"), strings(&["", "a", "b", " "]));
    let b = builtin_keys();
    assert_eq!(b[0], "");
    assert_eq!(b[1], "0");
    assert_eq!(b[b.len() - 1], " ");
}

#[test]
fn pdf_info_entries_are_renamed_and_dated() {
    assert_eq!(
        pdf_info_entry("CreationDate", " D:20250407143317+08'00' "),
        Some(("CreateDate".to_string(), "2025:04:07 14:33:17+08:00".to_string()))
    );
    assert_eq!(
        pdf_info_entry("ModDate", "2025"),
        Some(("ModifyDate".to_string(), "2025".to_string()))
    );
    assert_eq!(pdf_info_entry("Title", "  Report "), Some(("Title".to_string(), "Report".to_string())));
    assert_eq!(pdf_info_entry("Title", "   "), None);
}

#[test]
fn exiftool_commands_and_field_filter() {
    assert_eq!(
        exiftool_query_command("/a b.jpg"),
        "-json\n-fast2\n-charset\nfilename=utf8\n/a b.jpg\n-execute\n"
    );
    assert!(is_ready_line("{ready}\n"));
    assert!(!is_ready_line("{\"a\":1}"));
    assert!(!keep_tool_field("SourceFile", ToolValue::Text(3)));
    assert!(!keep_tool_field("Make", ToolValue::Null));
    assert!(keep_tool_field("Make", ToolValue::Text(2048)));
    assert!(!keep_tool_field("Make", ToolValue::Text(2049)));
    assert!(!keep_tool_field("Histogram", ToolValue::List(201)));
    assert!(keep_tool_field("Flags", ToolValue::Other));
}

#[test]
fn audio_tool_places_and_commands() {
    assert_eq!(ffmpeg_candidates("ffmpeg")[3], "Contents/Resources/bin/ffmpeg/ffmpeg");
    assert_eq!(asr_exe_candidates("audio")[1], "resources/bin/audio-cpp/audio");
    assert_eq!(asr_model_candidates().len(), 3);
    assert_eq!(audio_cache_key("/a.mp3", 30), md5_hex(b"/a.mp3:30"));
    let args = ffmpeg_args("/a.mp3", 30, "/tmp/x.wav");
    assert_eq!(args[2], "/a.mp3");
    assert_eq!(args[4], "30");
    assert_eq!(args[13], "/tmp/x.wav");
    assert_eq!(args.len(), 14);
    let asr = asr_args("m.gguf", "a.wav", Some("zh-CN"));
    assert_eq!(&asr[8..], &["--language".to_string(), "zh".to_string()]);
    assert_eq!(asr_args("m", "a", Some("e")).last().map(String::as_str), Some("e"));
    assert_eq!(asr_args("m", "a", None).len(), 8);
    assert_eq!(transcript_of("  hello \n").as_deref(), Some("hello"));
    assert_eq!(transcript_of(" \n "), None);
    let c = media_tool_candidates("ffprobe", "5.1.0", "linux", "ffprobe");
    assert_eq!(c.len(), 8);
    assert_eq!(c[4], "resources/bin/linux/ffprobe");
    assert_eq!(
        c[7],
        "node_modules\\.pnpm\\@ffprobe-installer+win32-x64@5.1.0\\node_modules\\@ffprobe-installer\\win32-x64\\ffprobe"
    );
    assert_eq!(prepended_path(&strings(&["/a", "/b"]), "/usr/bin"), "/a;/b;/usr/bin");
}

#[test]
fn ocr_model_places() {
    assert_eq!(ocr_model_dirs().len(), 7);
    assert_eq!(ocr_model_dirs()[6], "models/PP-OCRv6");
    assert_eq!(ocr_model_ancestor_dirs().len(), 2);
    assert_eq!(ocr_model_markers()[2], "ppocr_keys_v6_small.txt");
}

#[test]
fn fingerprint_is_sixteen_hex_digits() {
    assert_eq!(phash_from_samples(3, &[1, 2, 3], None), Some("00000000002a4a85".to_string()));
    assert_eq!(phash_from_samples(0, &[], None), None);
    let big = phash_from_samples(200_000, &[7u8; 16], Some(&[9u8; 16])).unwrap();
    assert_eq!(big.len(), 16);
    assert!(big.chars().all(|c| c.is_ascii_digit() || ('a'..='f').contains(&c)));
}

#[test]
fn mime_follows_the_magic_header() {
    let png = [0x89u8, 0x50, 0x4E, 0x47, 0x0D, 0x0A, 0x1A, 0x0A, 0, 0];
    assert_eq!(OmniVisionEngine::detect_mime_type("scan.dat", &png).ok(), Some("image/png".to_string()));
    assert_eq!(OmniVisionEngine::detect_mime_type("a.txt", b"%PDF-1.7").ok(), Some("application/pdf".to_string()));
    assert_eq!(OmniVisionEngine::detect_mime_type("a.JPG", b"hello").ok(), Some("image/jpeg".to_string()));
    assert_eq!(OmniVisionEngine::detect_mime_type("blob", b"").ok(), Some("application/octet-stream".to_string()));
    assert_eq!(sniff_mime(b"RIFF\x00\x00\x00\x00WEBPVP8 "), Some("image/webp"));
    assert_eq!(sniff_mime(b"RIFF\x00\x00\x00\x00WAVE"), None);
}

#[test]
fn extraction_header_describes_the_file() {
    let h = extraction_header("dir/a.pdf", true, 0, "application/pdf", "pdf", 100);
    assert_eq!(h.file_path, "dir\\a.pdf");
    assert!(h.is_corrupted);
    assert!(!h.over_size_limit);
    assert_eq!(h.magika_label, "pdf");
    assert_eq!(h.magika_name, "Magika Identified Format (application/pdf)");
    assert_eq!(h.magika_description, "Magika Neural Network Classification for application/pdf");
    assert_eq!(h.extensions, vec!["pdf".to_string()]);
    let big = extraction_header("b", false, 2 * 1048576 + 1, "application/octet-stream", "", 2);
    assert!(big.over_size_limit && !big.is_corrupted);
    assert_eq!(big.magika_label, "bin");
    assert!(big.extensions.is_empty());
}
