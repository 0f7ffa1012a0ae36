use firefly_omni::fact_tags::{extract_fact_tags, FactTag, FactTagContext, MetaValue, OmniFactTagExtractor};
use firefly_omni::tag_identity::TagRegistry;

fn object(entries: &[(&str, MetaValue)]) -> MetaValue {
    MetaValue::Object(entries.iter().map(|(k, v)| (k.to_string(), clone_meta(v))).collect())
}

fn clone_meta(v: &MetaValue) -> MetaValue {
    match v {
        MetaValue::Text(t) => MetaValue::Text(t.clone()),
        MetaValue::Object(es) => MetaValue::Object(es.iter().map(|(k, v)| (k.clone(), clone_meta(v))).collect()),
        MetaValue::Other => MetaValue::Other,
    }
}

fn text(s: &str) -> MetaValue {
    MetaValue::Text(s.to_string())
}

fn context(metadata: MetaValue) -> FactTagContext {
    FactTagContext {
        metadata,
        file_source: None,
        workflow_state: None,
        security_level: None,
        quality_grade: None,
        language_label: None,
    }
}

fn names(tags: &[FactTag]) -> Vec<&str> {
    tags.iter().map(|t| t.name.as_str()).collect()
}

#[test]
fn test_extract_image_equipment_tags() {
    let metadata = object(&[(
        "exiftool",
        object(&[
            ("Make", text("Canon")),
            ("Model", text("Canon EOS R5")),
            ("Software", text("Adobe Photoshop 25.0 (Windows)")),
        ]),
    )]);
    let reg = TagRegistry::new();
    let tags = extract_fact_tags(metadata, &reg);
    let names = names(&tags);

    assert!(names.contains(&"Canon"), "应提取相机品牌 Make，实际: {:?}", names);
    assert!(names.contains(&"Canon EOS R5"), "应提取器材型号 Model，实际: {:?}", names);
    assert!(names.contains(&"Adobe Photoshop"), "应提取创作软件并剥离版本号，实际: {:?}", names);
}

#[test]
fn test_downshift_physical_facts_and_quality_grade() {
    let reg = TagRegistry::new();
    let tags = OmniFactTagExtractor::extract(
        &FactTagContext {
            metadata: object(&[]),
            file_source: Some("网络下载".to_string()),
            workflow_state: Some("草稿".to_string()),
            security_level: Some("内部".to_string()),
            quality_grade: Some("高质量".to_string()),
            language_label: Some("中文".to_string()),
        },
        &reg,
    );
    let names = names(&tags);
    for expected in ["网络下载", "草稿", "内部", "高质量", "中文"] {
        assert!(names.contains(&expected), "应下沉物理事实 {}，实际: {:?}", expected, names);
    }
}

#[test]
fn test_noisy_author_filtered() {
    let metadata = object(&[("document", object(&[("Author", text("Administrator"))]))]);
    let reg = TagRegistry::new();
    let tags = OmniFactTagExtractor::extract(&context(metadata), &reg);
    assert!(tags.iter().all(|t| t.name != "Administrator"));
}

#[test]
fn fact_tags_come_from_metadata_engine_with_codes() {
    let metadata = object(&[
        ("exiftool", object(&[("Album", text("乐与怒")), ("Genre", text("摇滚"))])),
        ("audio", object(&[("album", text("乐与怒"))])),
    ]);
    let reg = TagRegistry::new();
    let tags = OmniFactTagExtractor::extract(&context(metadata), &reg);
    let names = names(&tags);
    assert!(names.contains(&"乐与怒"));
    assert!(names.contains(&"摇滚"));
    assert_eq!(names.iter().filter(|n| **n == "乐与怒").count(), 1);
    for tag in &tags {
        assert_eq!(tag.engine.as_deref(), Some("metadata"));
        assert!(!tag.code.is_empty());
    }
}

#[test]
fn software_names_lose_versions_and_remarks() {
    assert_eq!(
        OmniFactTagExtractor::normalize_software_name("Adobe Photoshop 25.0 (Windows)"),
        "Adobe Photoshop"
    );
    assert_eq!(OmniFactTagExtractor::normalize_software_name("  GIMP  "), "GIMP");
}

#[test]
fn blank_and_other_values_give_no_tags() {
    let metadata = object(&[("exiftool", object(&[("Make", text("   ")), ("Model", MetaValue::Other)]))]);
    let reg = TagRegistry::new();
    assert!(OmniFactTagExtractor::extract(&context(metadata), &reg).is_empty());
}

#[test]
fn metadata_only_album_and_genre() {
    let metadata = object(&[(
        "exiftool",
        object(&[("Album", text("乐与怒")), ("Genre", text("摇滚"))]),
    )]);
    let reg = TagRegistry::new();
    let tags = extract_fact_tags(metadata, &reg);
    assert_eq!(names(&tags), vec!["乐与怒", "摇滚"]);
    for tag in &tags {
        assert!(!tag.code.is_empty());
    }
}
