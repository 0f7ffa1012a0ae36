use firefly_omni::taxonomy::{canonical_flag, legacy_row_serves, locale_or_empty, prefix_patterns, query_taxonomy_aliases};
use firefly_omni::taxonomy_tree::{query_taxonomy_tree, tree_from_rows};
use firefly_omni::sqlite::Db;
use rusqlite::Connection;

#[test]
fn test_taxonomy_aliases_display_cascade_fallback_to_en_us() {
    let conn = Connection::open_in_memory().expect("in-memory database");
    conn.execute_batch(
        "CREATE TABLE file_tags (
            code TEXT PRIMARY KEY,
            name TEXT NOT NULL,
            parent_codes TEXT NOT NULL DEFAULT '[]'
        );
        CREATE TABLE tag_aliases_zh_CN (
            tag_code TEXT NOT NULL, lemma TEXT NOT NULL, is_canonical INTEGER NOT NULL DEFAULT 0,
            n INTEGER NOT NULL DEFAULT 1, count INTEGER NOT NULL DEFAULT 0,
            PRIMARY KEY (tag_code, lemma)
        ) WITHOUT ROWID;
        CREATE TABLE tag_aliases_en_US (
            tag_code TEXT NOT NULL, lemma TEXT NOT NULL, is_canonical INTEGER NOT NULL DEFAULT 0,
            n INTEGER NOT NULL DEFAULT 1, count INTEGER NOT NULL DEFAULT 0,
            PRIMARY KEY (tag_code, lemma)
        ) WITHOUT ROWID;
        INSERT INTO file_tags (code, name) VALUES
            ('builtin.invoice', '发票'),
            ('omw.02084071.n', 'omw.02084071.n');
        INSERT INTO tag_aliases_zh_CN (tag_code, lemma, is_canonical, count) VALUES
            ('builtin.invoice', '发票', 1, 10);
        INSERT INTO tag_aliases_en_US (tag_code, lemma, is_canonical, count) VALUES
            ('builtin.invoice', 'Invoice', 1, 10),
            ('omw.02084071.n', 'bill', 1, 8);",
    )
    .expect("alias fixture");

    let mut db = Db::new(conn);
    let zh = query_taxonomy_aliases(&mut db, "tag_aliases_zh_CN", "zh-CN", None).expect("zh aliases");
    assert_eq!(zh.canonical_name("builtin.invoice").unwrap(), "发票");
    assert_eq!(zh.canonical_name("omw.02084071.n").unwrap(), "bill");

    let en = query_taxonomy_aliases(&mut db, "tag_aliases_en_US", "en-US", None).expect("en aliases");
    assert_eq!(en.canonical_name("builtin.invoice").unwrap(), "Invoice");
    assert_eq!(en.canonical_name("omw.02084071.n").unwrap(), "bill");
}

fn alias_fixture() -> Connection {
    let conn = Connection::open_in_memory().unwrap();
    conn.execute_batch(
        "CREATE TABLE tag_aliases_zh_CN (
            tag_code TEXT NOT NULL, lemma TEXT NOT NULL, is_canonical INTEGER NOT NULL DEFAULT 0,
            n INTEGER NOT NULL DEFAULT 1, count INTEGER NOT NULL DEFAULT 0,
            PRIMARY KEY (tag_code, lemma)
        ) WITHOUT ROWID;
        INSERT INTO tag_aliases_zh_CN (tag_code, lemma, is_canonical, count) VALUES
            ('builtin.dog', '狗', 1, 10),
            ('builtin.dog', '犬', 0, 5),
            ('builtin.dog', '狗狗', 0, 7),
            ('builtin.cat', '猫咪', 0, 3),
            ('omw.x', '某物', 0, 1);",
    )
    .unwrap();
    conn
}

#[test]
fn aliases_put_canonical_first_and_order_others_by_count() {
    let conn = alias_fixture();
    let mut db = Db::new(conn);
    let zh = query_taxonomy_aliases(&mut db, "tag_aliases_zh_CN", "zh-CN", None).unwrap();
    assert_eq!(zh.locale, "zh-CN");
    assert_eq!(zh.total_tags, 3);
    assert_eq!(zh.aliases_of("builtin.dog").unwrap(), &vec!["狗", "狗狗", "犬"]);
    assert_eq!(zh.canonical_name("builtin.dog").unwrap(), "狗");
    // without a canonical row the first alias becomes the name
    assert_eq!(zh.canonical_name("builtin.cat").unwrap(), "猫咪");
}

#[test]
fn aliases_prefix_filter_limits_codes() {
    let conn = alias_fixture();
    let mut db = Db::new(conn);
    let resp = query_taxonomy_aliases(&mut db, "tag_aliases_zh_CN", "zh-CN", Some("builtin")).unwrap();
    assert_eq!(resp.total_tags, 2);
    assert!(resp.aliases_of("omw.x").is_none());
    assert!(resp.aliases_of("builtin.cat").is_some());
}

#[test]
fn aliases_without_any_table_are_empty() {
    let conn = Connection::open_in_memory().unwrap();
    let mut db = Db::new(conn);
    let resp = query_taxonomy_aliases(&mut db, "tag_aliases_fr_FR", "fr-FR", None).unwrap();
    assert_eq!(resp.total_tags, 0);
    assert!(resp.aliases.is_empty());
    assert!(resp.canonical_names.is_empty());
}

#[test]
fn aliases_fall_back_to_legacy_table_rows_of_the_locale() {
    let conn = Connection::open_in_memory().unwrap();
    conn.execute_batch(
        "CREATE TABLE tag_aliases (tag_code TEXT NOT NULL, lemma TEXT NOT NULL,
            is_canonical INTEGER NOT NULL DEFAULT 0, locale TEXT NOT NULL DEFAULT '');
        INSERT INTO tag_aliases (tag_code, lemma, is_canonical, locale) VALUES
            ('builtin.dog', '狗', 1, 'zh-TW'),
            ('builtin.dog', 'dog', 1, 'en-US'),
            ('builtin.cat', 'Katze', 1, 'de');",
    )
    .unwrap();
    let mut db = Db::new(conn);
    let resp = query_taxonomy_aliases(&mut db, "tag_aliases_zh_CN", "zh-CN", None).unwrap();
    assert_eq!(resp.total_tags, 1);
    assert_eq!(resp.canonical_name("builtin.dog").unwrap(), "狗");
    assert!(resp.canonical_name("builtin.cat").is_none());
}

#[test]
fn prefix_patterns_trim_dots_then_percent_signs() {
    assert_eq!(prefix_patterns(" builtin "), Some(("builtin".to_string(), "builtin.%".to_string())));
    assert_eq!(prefix_patterns("builtin.."), Some(("builtin".to_string(), "builtin.%".to_string())));
    assert_eq!(prefix_patterns("builtin.%"), Some(("builtin.".to_string(), "builtin..%".to_string())));
    assert_eq!(prefix_patterns("%%"), None);
    assert_eq!(prefix_patterns("   "), None);
}

#[test]
fn legacy_rows_match_locale_or_language() {
    assert!(legacy_row_serves("zh-CN", "ZH-cn"));
    assert!(legacy_row_serves("zh_TW", "zh-CN"));
    assert!(legacy_row_serves("EN", "en-US"));
    assert!(!legacy_row_serves("fr", "zh-CN"));
    assert!(legacy_row_serves("fr", ""));
}

fn tree_fixture() -> Connection {
    let conn = Connection::open_in_memory().unwrap();
    conn.execute_batch(
        "CREATE TABLE file_tags (code TEXT PRIMARY KEY, name TEXT NOT NULL, parent_codes TEXT);
        CREATE TABLE tag_aliases_zh_CN (
            tag_code TEXT NOT NULL, lemma TEXT NOT NULL, is_canonical INTEGER NOT NULL DEFAULT 0,
            n INTEGER NOT NULL DEFAULT 1, count INTEGER NOT NULL DEFAULT 0,
            PRIMARY KEY (tag_code, lemma)
        ) WITHOUT ROWID;
        INSERT INTO tag_aliases_zh_CN (tag_code, lemma, is_canonical, count) VALUES
            ('builtin.b', '乙', 1, 1);
        INSERT INTO file_tags (code, name, parent_codes) VALUES
            ('builtin.c', 'C', '[\"builtin.a\", \"omw.x\"]'),
            ('builtin.a', 'A', '[]'),
            ('builtin.b', 'B', '[\"builtin.a\"]'),
            ('omw.x', '  ', '[\"builtin.zz\"]'),
            ('user.p', 'P', '[\"user.q\"]'),
            ('user.q', 'Q', '[\"user.p\"]'),
            ('mine', 'M', NULL);",
    )
    .unwrap();
    conn
}

#[test]
fn tree_hangs_tags_under_their_first_known_parent() {
    let conn = tree_fixture();
    let mut db = Db::new(conn);
    let resp = query_taxonomy_tree(&mut db, "tag_aliases_zh_CN", "zh-CN", None).unwrap();
    assert_eq!(resp.total_nodes, 7);
    let roots: Vec<&str> = resp.root_nodes.iter().map(|n| n.code.as_str()).collect();
    // user.p and user.q form a cycle: neither is a root
    assert_eq!(roots, vec!["builtin.a", "mine", "omw.x"]);
    let a = &resp.root_nodes[0];
    let kids: Vec<&str> = a.children.iter().map(|n| n.code.as_str()).collect();
    assert_eq!(kids, vec!["builtin.b", "builtin.c"]);
    assert_eq!(a.children[0].name, "乙");
    assert_eq!(a.children[1].parent_code.as_deref(), Some("builtin.a"));
    assert_eq!(a.children[1].parent_codes, vec!["builtin.a", "omw.x"]);
    assert_eq!(a.source, "builtin");
    // a blank name shows the code; an unknown prefix is a user tag
    assert_eq!(resp.root_nodes[2].name, "omw.x");
    assert_eq!(resp.root_nodes[2].source, "omw");
    assert_eq!(resp.root_nodes[1].source, "user");
    assert!(resp.root_nodes[1].parent_codes.is_empty());
}

#[test]
fn tree_of_one_root_stops_at_a_cycle() {
    let conn = tree_fixture();
    let mut db = Db::new(conn);
    let resp = query_taxonomy_tree(&mut db, "tag_aliases_zh_CN", "zh-CN", Some("user.p")).unwrap();
    assert_eq!(resp.root_nodes.len(), 1);
    let p = &resp.root_nodes[0];
    assert_eq!(p.code, "user.p");
    assert_eq!(p.children.len(), 1);
    assert_eq!(p.children[0].code, "user.q");
    assert!(p.children[0].children.is_empty());
    let none = query_taxonomy_tree(&mut db, "tag_aliases_zh_CN", "zh-CN", Some("no.such")).unwrap();
    assert!(none.root_nodes.is_empty());
}

#[test]
fn tree_without_file_tags_is_empty() {
    let conn = Connection::open_in_memory().unwrap();
    let mut db = Db::new(conn);
    let resp = query_taxonomy_tree(&mut db, "tag_aliases_zh_CN", "zh-CN", None).unwrap();
    assert_eq!(resp.locale, "zh-CN");
    assert_eq!(resp.total_nodes, 0);
    assert!(resp.root_nodes.is_empty());
}

fn raw_row(code: Option<&str>, name: Option<&str>, parents: Option<&str>) -> (Option<String>, Option<String>, Option<String>) {
    (code.map(|s| s.to_string()), name.map(|s| s.to_string()), parents.map(|s| s.to_string()))
}

#[test]
fn forest_is_built_from_the_rows_read() {
    let raw = vec![
        raw_row(Some("builtin.a"), Some("A"), Some("[]")),
        raw_row(Some("builtin.b"), Some("B"), Some("[\"builtin.a\"]")),
        raw_row(Some("builtin.c"), Some(""), None),
    ];
    let resp = match tree_from_rows(&raw, &None, "zh-CN", None) {
        Ok(r) => r,
        Err(_) => panic!("rows are complete"),
    };
    assert_eq!(resp.total_nodes, 3);
    assert_eq!(resp.locale, "zh-CN");
    let roots: Vec<&str> = resp.root_nodes.iter().map(|n| n.code.as_str()).collect();
    assert_eq!(roots, vec!["builtin.a", "builtin.c"]);
    assert_eq!(resp.root_nodes[0].children.len(), 1);
    assert_eq!(resp.root_nodes[0].children[0].code, "builtin.b");
    assert_eq!(resp.root_nodes[1].name, "builtin.c");
    let bad = vec![raw_row(None, Some("A"), None)];
    assert!(tree_from_rows(&bad, &None, "zh-CN", None).is_err());
}

#[test]
fn canonical_flag_is_one_and_unreadable_counts_as_zero() {
    assert!(canonical_flag(&Some(1)));
    assert!(!canonical_flag(&Some(0)));
    assert!(!canonical_flag(&Some(2)));
    assert!(!canonical_flag(&None));
}

#[test]
fn unreadable_locale_reads_as_empty() {
    assert_eq!(locale_or_empty(&Some("zh-CN".to_string())), "zh-CN");
    assert_eq!(locale_or_empty(&None), "");
}
