use firefly_omni::tag_identity::{
    builtin_tag_code, clear_dynamic_aliases, derive_ext_tag_code, en_builtin_code,
    load_aliases_from_entries, normalize_tag_set_to_codes, normalize_tag_to_code,
    resolve_controlled_tag_code, tag_display, tag_matches_concept, TagRegistry,
};
use firefly_omni::unicode::normalize_lemma;

#[test]
fn en_builtin_code_matches_ts_algorithm_shape() {
    let code = en_builtin_code("Screenshot");
    assert_eq!(code, "builtin.screenshot");
    assert_eq!(code, en_builtin_code("Screenshot"));
    assert_eq!(en_builtin_code("Source Code"), "builtin.source_code");
}

#[test]
fn zh_and_en_aliases_share_same_code() {
    let reg = TagRegistry::new();
    let zh = builtin_tag_code(&reg, "截图").expect("截图");
    let en = builtin_tag_code(&reg, "Screenshot").expect("Screenshot");
    let en2 = builtin_tag_code(&reg, "screen capture").expect("screen capture");
    assert_eq!(zh, en);
    assert_eq!(en, en2);
    assert_eq!(zh, en_builtin_code("Screenshot"));
}

#[test]
fn tag_matches_concept_works_across_languages() {
    let reg = TagRegistry::new();
    assert!(tag_matches_concept(&reg, "Screenshot", "截图"));
    assert!(tag_matches_concept(&reg, "有字图", "Image With Text"));
    assert!(!tag_matches_concept(&reg, "Screenshot", "设计稿"));
}

#[test]
fn normalize_tag_set_is_idempotent_across_locales() {
    let reg = TagRegistry::new();
    let zh_set = vec!["截图".to_string(), "设计稿".to_string(), "有字图".to_string()];
    let en_set = vec![
        "Screenshot".to_string(),
        "Design Draft".to_string(),
        "Image With Text".to_string(),
    ];
    let a = normalize_tag_set_to_codes(&reg, &zh_set);
    let b = normalize_tag_set_to_codes(&reg, &en_set);
    assert_eq!(a, b);
    assert_eq!(a.len(), 3);
}

#[test]
fn unknown_tag_falls_back_to_ext() {
    let reg = TagRegistry::new();
    let code = normalize_tag_to_code(&reg, "深度强化学习");
    assert!(code.starts_with("_ext."));
    let c2 = normalize_tag_to_code(&reg, "Deep Reinforcement Learning");
    assert_ne!(code, c2);
}

#[test]
fn p0_vision_gating_concept_matching() {
    let reg = TagRegistry::new();
    assert!(tag_matches_concept(&reg, "Screenshot", "截图"));
    assert!(tag_matches_concept(&reg, "Portrait", "人像写真"));
    assert!(tag_matches_concept(&reg, "Person Photo", "人物照"));
    assert!(tag_matches_concept(&reg, "Natural Landscape", "自然景观"));
    assert!(tag_matches_concept(&reg, "Image Without Text", "无字图"));
    assert!(tag_matches_concept(&reg, "Design Draft", "设计稿"));
    assert!(!tag_matches_concept(&reg, "Screenshot", "人像写真"));

    let zh = vec!["截图".to_string(), "人像写真".to_string(), "无字图".to_string()];
    let en = vec![
        "Screenshot".to_string(),
        "Portrait".to_string(),
        "Image Without Text".to_string(),
    ];
    assert_eq!(normalize_tag_set_to_codes(&reg, &zh), normalize_tag_set_to_codes(&reg, &en));
    assert_eq!(en_builtin_code("Screenshot"), "builtin.screenshot");
}

#[test]
fn ext_same_slug_different_raw_are_distinct() {
    let a = derive_ext_tag_code("Go");
    let b = derive_ext_tag_code("go");
    assert_ne!(a, b);
    assert!(a.starts_with("_ext."));
}

#[test]
fn dynamic_aliases_injection_and_lookup() {
    let mut reg = TagRegistry::new();
    clear_dynamic_aliases(&mut reg);
    load_aliases_from_entries(
        &mut reg,
        vec![("特种发票", "builtin.invoice"), ("Special Tax Invoice", "builtin.invoice")],
    );
    assert_eq!(builtin_tag_code(&reg, "特种发票"), Some("builtin.invoice"));
    assert_eq!(builtin_tag_code(&reg, "Special Tax Invoice"), Some("builtin.invoice"));
    assert_eq!(normalize_tag_to_code(&reg, "特种发票"), "builtin.invoice");
    clear_dynamic_aliases(&mut reg);
}

#[test]
fn dynamic_aliases_prefer_omw_over_builtin_for_same_lemma() {
    let mut reg = TagRegistry::new();
    clear_dynamic_aliases(&mut reg);
    load_aliases_from_entries(
        &mut reg,
        vec![("科幻", "builtin.science_fiction"), ("科幻", "omw.00012345.n")],
    );
    assert_eq!(resolve_controlled_tag_code(&reg, "科幻"), Some("omw.00012345.n"));
    clear_dynamic_aliases(&mut reg);
    load_aliases_from_entries(
        &mut reg,
        vec![("科幻", "omw.00012345.n"), ("科幻", "builtin.science_fiction")],
    );
    assert_eq!(resolve_controlled_tag_code(&reg, "科幻"), Some("omw.00012345.n"));
    assert!(resolve_controlled_tag_code(&reg, "截图").unwrap().starts_with("builtin."));
    assert_eq!(resolve_controlled_tag_code(&reg, "完全未知的新标签XYZQ"), None);
    clear_dynamic_aliases(&mut reg);
}

#[test]
fn derive_ext_tag_code_exact_shape() {
    // sha256("Go") = 9d8f25e7...
    let a = derive_ext_tag_code("  Go  ");
    assert_eq!(a, format!("_ext.go.{}", &firefly_omni::hashing::content_hash8("Go")));
    assert_eq!(firefly_omni::hashing::content_hash8("abc"), "ba7816bf");
    // pure CJK text has an empty slug: only the hash remains
    let c = derive_ext_tag_code("深度强化学习");
    assert_eq!(c, format!("_ext.{}", firefly_omni::hashing::content_hash8("深度强化学习")));
}

#[test]
fn en_builtin_code_folds_symbols_and_hashes_empty_slug() {
    assert_eq!(en_builtin_code("  R-18G "), "builtin.r_18g");
    assert_eq!(en_builtin_code("E-Book"), "builtin.e_book");
    assert_eq!(en_builtin_code("__Black  And--White__"), "builtin.black_and_white");
    assert_eq!(en_builtin_code("主题"), format!("builtin.h_{}", firefly_omni::hashing::content_hash8("主题")));
}

#[test]
fn normalize_lemma_applies_nfkc_trim_lowercase() {
    assert_eq!(normalize_lemma("  ＡＢＣ Screen "), "abc screen");
    assert_eq!(normalize_lemma("\u{3000}截图\t"), "截图");
}

#[test]
fn tag_display_by_language_and_fallbacks() {
    let reg = TagRegistry::new();
    assert_eq!(tag_display(&reg, "builtin.screenshot", "zh-CN"), "截图");
    assert_eq!(tag_display(&reg, " builtin.screenshot ", "en-US"), "Screenshot");
    assert_eq!(tag_display(&reg, "builtin.deep_thing", "en"), "deep thing");
    assert_eq!(tag_display(&reg, "_ext.go_lang.12345678", "en"), "go lang");
    assert_eq!(tag_display(&reg, "_ext..12345678", "en"), "_ext..12345678");
    assert_eq!(tag_display(&reg, "omw.0001.n", "zh"), "omw.0001.n");
    // the first alias row of the invoice concept is the English model alias
    assert_eq!(tag_display(&reg, "builtin.invoice", "ZH"), "invoice");
}

#[test]
fn normalize_tag_to_code_keeps_code_forms() {
    let reg = TagRegistry::new();
    assert_eq!(normalize_tag_to_code(&reg, "  omw.00012345.n "), "omw.00012345.n");
    assert_eq!(normalize_tag_to_code(&reg, "_ext.x.abcdef12"), "_ext.x.abcdef12");
    assert_eq!(normalize_tag_to_code(&reg, "截图"), "builtin.screenshot");
}

#[test]
fn normalize_tag_set_sorts_and_dedups() {
    let reg = TagRegistry::new();
    let tags = vec![
        "设计稿".to_string(),
        "截图".to_string(),
        "Screenshot".to_string(),
        "omw.b".to_string(),
        "omw.a".to_string(),
    ];
    let codes = normalize_tag_set_to_codes(&reg, &tags);
    assert_eq!(
        codes,
        vec![
            "builtin.design_draft".to_string(),
            "builtin.screenshot".to_string(),
            "omw.a".to_string(),
            "omw.b".to_string()
        ]
    );
    assert!(normalize_tag_set_to_codes(&reg, &[]).is_empty());
}

#[test]
fn omw_code_wins_regardless_of_order_with_three_entries() {
    let mut reg = TagRegistry::new();
    load_aliases_from_entries(
        &mut reg,
        vec![("新词", "builtin.a"), ("新词", "omw.1.n"), ("新词", "builtin.b"), ("  ", "omw.2.n")],
    );
    assert_eq!(builtin_tag_code(&reg, "新词"), Some("omw.1.n"));
    // a later non-builtin code replaces the omw one
    load_aliases_from_entries(&mut reg, vec![("新词", "_ext.x.1")]);
    assert_eq!(builtin_tag_code(&reg, "新词"), Some("_ext.x.1"));
    // empty lemmas are never stored
    assert_eq!(resolve_controlled_tag_code(&reg, "  "), None);
}

#[test]
fn tag_matches_concept_is_symmetric_and_reflexive() {
    let reg = TagRegistry::new();
    assert_eq!(
        tag_matches_concept(&reg, "截图", "Portrait"),
        tag_matches_concept(&reg, "Portrait", "截图")
    );
    assert!(tag_matches_concept(&reg, " 未知 ", "未知"));
    assert!(tag_matches_concept(&reg, "未知", "未知"));
}

#[test]
fn empty_slug_builtin_code_uses_hash_form() {
    let code = en_builtin_code("  测试  ");
    assert_eq!(code, format!("builtin.h_{}", firefly_omni::hashing::content_hash8("测试")));
    assert_eq!(code.len(), "builtin.h_".len() + 8);
}

#[test]
fn alias_loading_keeps_omw_against_builtin_else_last_wins() {
    let mut reg = TagRegistry::new();
    load_aliases_from_entries(&mut reg, vec![("科幻", "builtin.x"), ("科幻", "omw.1"), ("科幻", "builtin.y")]);
    assert_eq!(resolve_controlled_tag_code(&reg, "科幻"), Some("omw.1"));
    load_aliases_from_entries(&mut reg, vec![("科幻", "_ext.z")]);
    assert_eq!(resolve_controlled_tag_code(&reg, "科幻"), Some("_ext.z"));
    load_aliases_from_entries(&mut reg, vec![("科幻", "builtin.w")]);
    assert_eq!(resolve_controlled_tag_code(&reg, "科幻"), Some("builtin.w"));
}

#[test]
fn display_name_round_trips_through_builtin_code() {
    let reg = TagRegistry::new();
    let code = en_builtin_code("Screenshot");
    let shown = tag_display(&reg, &code, "en-US");
    assert_eq!(en_builtin_code(&shown), code);
}
