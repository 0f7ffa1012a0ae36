use firefly_omni::mcp::{
    mcp_method, mcp_tool, method_not_found_code, request_line, tool_failure_code,
    unknown_tool_message, McpMethod, McpTool,
};
use firefly_omni::perception::{
    add_comic_format_tag, calibrate_with_ocr, first_tags, gate_untexted_tags, has_concept,
    is_anime_art, keep_gated, language_label, looks_like_code, mark_text_present,
    merge_mutual_tags, mosaic_status, must_be_confidential, perception_kind, place_address,
    plan_chain_items, refine_photo_type, remove_concept, should_transcribe, watermark_status,
    ComicShape, TagEngine, TagSources,
};
use firefly_omni::tag_identity::{normalize_tag_to_code, TagRegistry};

fn strings(v: &[&str]) -> Vec<String> {
    v.iter().map(|s| s.to_string()).collect()
}

fn pairs(v: &[(&str, &str)]) -> Vec<(String, String)> {
    v.iter().map(|(a, b)| (a.to_string(), b.to_string())).collect()
}

#[test]
fn text_mark_replaces_no_text_tag() {
    let reg = TagRegistry::new();
    let (tags, added) = mark_text_present(&reg, &strings(&["风景", "无字图"]));
    assert!(added);
    assert_eq!(tags, strings(&["风景", "有字图"]));
    let (tags, added) = mark_text_present(&reg, &strings(&["有字图"]));
    assert!(!added);
    assert_eq!(tags, strings(&["有字图"]));
}

#[test]
fn concepts_are_found_and_removed() {
    let reg = TagRegistry::new();
    let tags = strings(&["截图", "风景", "Screenshot"]);
    assert!(has_concept(&reg, &tags, "截图"));
    assert_eq!(remove_concept(&reg, &tags, "截图"), strings(&["风景"]));
}

#[test]
fn ocr_text_calibrates_semantic_tags() {
    let reg = TagRegistry::new();
    let none = calibrate_with_ocr(&reg, &strings(&["无字图"]), "   ");
    assert!(!none.has_text);
    assert_eq!(none.clip_tags, strings(&["无字图"]));
    let text = calibrate_with_ocr(&reg, &strings(&["无字图", "聊天截图"]), "fn main() {}");
    assert!(text.has_text);
    assert!(text.code_screenshot);
    assert_eq!(text.clip_tags, strings(&["有字图", "代码截图"]));
    assert_eq!(text.forced, strings(&["有字图", "代码截图"]));
    assert!(looks_like_code("Console.Log(x)"));
    assert!(!looks_like_code("hello world"));
}

#[test]
fn mutual_winners_merge_into_rule_tags() {
    let reg = TagRegistry::new();
    let rules = strings(&["黑白", "横图"]);
    let mutual = pairs(&[("全彩", "色彩模式"), ("无字图", "文字存在性")]);
    let merged = merge_mutual_tags(&reg, &rules, &mutual, false);
    assert_eq!(merged, strings(&["横图", "全彩", "无字图"]));
    let with_text = merge_mutual_tags(&reg, &rules, &mutual, true);
    assert_eq!(with_text, strings(&["横图", "全彩", "有字图"]));
    let no_mutual = merge_mutual_tags(&reg, &strings(&["无字图"]), &vec![], true);
    assert_eq!(no_mutual, strings(&["有字图"]));
}

#[test]
fn photo_type_is_refined_by_group_winners() {
    let mutual = pairs(&[("风景照", "摄影题材细分"), ("聊天截图", "截图场景细分")]);
    assert_eq!(refine_photo_type(Some("截图".to_string()), &mutual).as_deref(), Some("聊天截图"));
    assert_eq!(refine_photo_type(Some("插画".to_string()), &mutual).as_deref(), Some("插画"));
    let photo = pairs(&[("风景照", "摄影题材细分")]);
    assert_eq!(refine_photo_type(Some("摄影照片".to_string()), &photo).as_deref(), Some("风景照"));
    let form = pairs(&[("照片", "内容形态")]);
    assert_eq!(refine_photo_type(None, &form).as_deref(), Some("照片"));
    assert_eq!(refine_photo_type(None, &vec![]), None);
}

#[test]
fn engines_are_credited_by_priority() {
    let sources = TagSources {
        clip: strings(&["a", "b"]),
        physical: strings(&["b"]),
        nsfw: strings(&["n"]),
        quality: strings(&["n", "q"]),
        ram: strings(&["r"]),
        mutual: strings(&["m"]),
        ocr: strings(&["a"]),
    };
    assert_eq!(sources.credited_engine(&"a".to_string()), Some(TagEngine::Ocr));
    assert_eq!(sources.credited_engine(&"b".to_string()), Some(TagEngine::Physical));
    assert_eq!(sources.credited_engine(&"n".to_string()), Some(TagEngine::Nsfw));
    assert_eq!(sources.credited_engine(&"q".to_string()), Some(TagEngine::Quality));
    assert_eq!(sources.credited_engine(&"z".to_string()), None);
    assert_eq!(TagEngine::MutualGroup.name(), "mutual_group");
    assert_eq!(sources.detected_tags(), strings(&["a", "b", "n", "q", "r"]));
}

#[test]
fn adult_content_is_confidential() {
    let reg = TagRegistry::new();
    assert!(must_be_confidential(&reg, false, &vec![], &Some("r18".to_string())));
    assert!(must_be_confidential(&reg, true, &vec![], &None));
    assert!(must_be_confidential(&reg, false, &strings(&["色情"]), &None));
    assert!(!must_be_confidential(&reg, false, &strings(&["风景"]), &Some("all".to_string())));
}

#[test]
fn request_language_labels() {
    assert_eq!(language_label(Some("ZH-cn")).as_deref(), Some("中文"));
    assert_eq!(language_label(Some("cmn")).as_deref(), Some("中文"));
    assert_eq!(language_label(Some("en-US")).as_deref(), Some("英文"));
    assert_eq!(language_label(Some("ja")), None);
    assert_eq!(language_label(None), None);
}

#[test]
fn place_address_joins_present_parts() {
    let parts = vec![Some("中国".to_string()), None, Some("成都".to_string())];
    assert_eq!(place_address(&parts).as_deref(), Some("中国 成都"));
    assert_eq!(place_address(&vec![None, None]), None);
}

#[test]
fn perception_kind_and_transcription() {
    let k = perception_kind("webm", "application/octet-stream");
    assert!(k.is_video && !k.is_image && !k.is_audio);
    assert!(should_transcribe(&k, None));
    assert!(!should_transcribe(&k, Some(false)));
    let k = perception_kind("png", "");
    assert!(!should_transcribe(&k, Some(true)));
}

#[test]
fn vision_statuses() {
    assert_eq!(watermark_status(2), "heavy");
    assert_eq!(watermark_status(1), "light");
    assert_eq!(watermark_status(0), "none");
    assert_eq!(mosaic_status(1), "thin");
    assert_eq!(mosaic_status(9), "none");
}

#[test]
fn untexted_images_lose_lettering_tags() {
    let reg = TagRegistry::new();
    let tags = strings(&["海报宣发", "截图", "风景"]);
    assert_eq!(gate_untexted_tags(&reg, &tags, false), strings(&["风景"]));
    assert_eq!(gate_untexted_tags(&reg, &tags, true), tags);
    assert_eq!(first_tags(&strings(&["1", "2", "3"]), 2), strings(&["1", "2"]));
    assert_eq!(first_tags(&strings(&["1"]), 5), strings(&["1"]));
}

#[test]
fn comic_format_tags_for_drawn_art() {
    let reg = TagRegistry::new();
    assert!(is_anime_art(&reg, &strings(&["漫画"])));
    assert!(!is_anime_art(&reg, &strings(&["风景"])));
    let mut tags = strings(&["竖图"]);
    add_comic_format_tag(&mut tags, true, ComicShape::Strip);
    add_comic_format_tag(&mut tags, true, ComicShape::Strip);
    assert_eq!(tags, strings(&["竖图", "条漫"]));
    add_comic_format_tag(&mut tags, false, ComicShape::Page);
    add_comic_format_tag(&mut tags, true, ComicShape::Other);
    assert_eq!(tags, strings(&["竖图", "条漫"]));
}

#[test]
fn chain_items_keep_ram_once_and_add_remaining_codes() {
    let reg = TagRegistry::new();
    let names = strings(&["截图", "风景"]);
    let codes: Vec<String> = names.iter().map(|n| normalize_tag_to_code(&reg, n)).collect();
    let ram = pairs(&[("Dog", "_ext.dog"), ("dog", "_ext.dog"), ("Sky", codes[1].as_str())]);
    let plan = plan_chain_items(&reg, &ram, &names, &codes);
    assert_eq!(plan.ram_kept, vec![0, 2]);
    assert_eq!(plan.added, vec![(codes[0].clone(), "截图".to_string())]);
    let gated = keep_gated(&reg, &strings(&["截图", "未知标签"]), &codes);
    assert_eq!(gated, strings(&["截图"]));
}

#[test]
fn tool_server_routing() {
    assert_eq!(mcp_method("initialize"), McpMethod::Initialize);
    assert_eq!(mcp_method("tools/list"), McpMethod::ListTools);
    assert_eq!(mcp_method("tools/call"), McpMethod::CallTool);
    assert_eq!(mcp_method("ping"), McpMethod::NotFound);
    assert_eq!(mcp_tool("omni_compute_phash"), Some(McpTool::ComputePhash));
    assert_eq!(mcp_tool("omni_extract_ocr"), Some(McpTool::ExtractOcr));
    assert_eq!(mcp_tool("x"), None);
    assert_eq!(method_not_found_code(), -32601);
    assert_eq!(tool_failure_code(), -32603);
    assert_eq!(unknown_tool_message("x"), "Unknown tool name: x");
    assert_eq!(request_line("  {\"a\":1}\n").as_deref(), Some("{\"a\":1}"));
    assert_eq!(request_line("   "), None);
}
