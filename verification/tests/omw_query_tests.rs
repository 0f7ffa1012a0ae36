use firefly_omni::omw_query::{
    antonyms_from_rows, hierarchy_step, mapping_from_rows, synsets_from_rows,
    antonyms, describe, hierarchy, lookup, mapping, tree, unmapped_stats, HIERARCHY_MAX_DEPTH,
};
use firefly_omni::omw::normalize_omw_language;
use firefly_omni::tag_identity::TagRegistry;
use firefly_omni::sqlite::Db;
use rusqlite::Connection;

/// A minimal OMW + file_tags database covering every query.
fn fixture() -> Connection {
    let conn = Connection::open_in_memory().unwrap();
    conn.execute_batch(
        "CREATE TABLE omw_languages (code TEXT PRIMARY KEY, label TEXT NOT NULL, \
            has_hierarchy INTEGER NOT NULL DEFAULT 0, has_definitions INTEGER NOT NULL DEFAULT 0, \
            has_examples INTEGER NOT NULL DEFAULT 0, meta TEXT NOT NULL DEFAULT '{}');
         CREATE TABLE omw_synsets (id TEXT PRIMARY KEY, ili TEXT, pos TEXT NOT NULL, lexfile TEXT, \
            definition TEXT, dc_identifier TEXT, meta TEXT NOT NULL DEFAULT '{}');
         CREATE TABLE omw_lexical_entries (id TEXT PRIMARY KEY, synset_id TEXT NOT NULL, \
            language TEXT NOT NULL, lemma TEXT NOT NULL, pos TEXT NOT NULL, meta TEXT NOT NULL DEFAULT '{}');
         CREATE TABLE omw_relations (source_id TEXT NOT NULL, target_id TEXT NOT NULL, \
            rel_type TEXT NOT NULL, meta TEXT NOT NULL DEFAULT '{}', PRIMARY KEY (source_id, target_id, rel_type));
         CREATE TABLE omw_sense_relations (source_entry_id TEXT NOT NULL, target_entry_id TEXT NOT NULL, \
            rel_type TEXT NOT NULL, meta TEXT NOT NULL DEFAULT '{}', PRIMARY KEY (source_entry_id, target_entry_id, rel_type));
         CREATE TABLE antonym_pairs (id INTEGER PRIMARY KEY AUTOINCREMENT, word_a TEXT NOT NULL, \
            word_b TEXT NOT NULL, source TEXT NOT NULL, language TEXT NOT NULL DEFAULT 'cmn', \
            status TEXT NOT NULL DEFAULT 'auto', meta TEXT NOT NULL DEFAULT '{}', UNIQUE (word_a, word_b, language));
         CREATE TABLE file_tags (code TEXT PRIMARY KEY, name TEXT NOT NULL, parent_codes TEXT NOT NULL DEFAULT '[]');",
    )
    .unwrap();

    conn.execute_batch(
        "INSERT INTO omw_languages (code, label) VALUES ('en', 'English'), ('cmn', '中文');
         INSERT INTO omw_synsets (id, ili, pos, lexfile, definition, dc_identifier, meta) VALUES
            ('o-dog.n', 'i1', 'n', 'noun.animal', 'a domesticated canine', 'dc1', '{\"k\":1}'),
            ('o-animal.n', 'i2', 'n', 'noun.animal', 'a living organism', NULL, '{}'),
            ('o-organism.n', 'i3', 'n', 'noun.entity', NULL, NULL, '{}'),
            ('o-plant.n', 'i4', 'n', 'noun.plant', 'a photosynthetic organism', NULL, '{}');
         INSERT INTO omw_lexical_entries (id, synset_id, language, lemma, pos) VALUES
            ('e1', 'o-dog.n', 'en', 'dog', 'n'),
            ('e2', 'o-dog.n', 'en', 'domestic dog', 'n'),
            ('e3', 'o-animal.n', 'en', 'animal', 'n'),
            ('e4', 'o-plant.n', 'en', 'plant', 'n');
         INSERT INTO omw_relations (source_id, target_id, rel_type) VALUES
            ('o-dog.n', 'o-animal.n', 'hypernym'),
            ('o-animal.n', 'o-organism.n', 'hypernym'),
            ('o-dog.n', 'o-animal.n', 'hyponym');
         INSERT INTO omw_sense_relations (source_entry_id, target_entry_id, rel_type) VALUES
            ('e3', 'e4', 'antonym');
         INSERT INTO antonym_pairs (word_a, word_b, source, language) VALUES
            ('dog', 'cat', 'antonym.txt', 'cmn');
         INSERT INTO file_tags (code, name, parent_codes) VALUES
            ('builtin.dog', '狗', '[\"omw.o-dog.n\", \"builtin.pet\"]'),
            ('builtin.pet', '宠物', '[\"omw.o-dog.n\"]'),
            ('builtin.cat', '猫', '[\"omw.o-dog.n\"]'),
            ('builtin.unrelated', '无关', '[]'),
            ('omw.o-dog.n', 'dog', '[\"builtin.pet\"]');",
    )
    .unwrap();

    conn
}

#[test]
fn lookup_returns_synset_with_deduped_lemmas() {
    let mut db = Db::new(fixture());
    let results = lookup(&mut db, "dog", "en").unwrap();
    assert_eq!(results.len(), 1);
    assert_eq!(results[0].id, "o-dog.n");
    assert_eq!(results[0].pos, "n");
    assert_eq!(results[0].definition.as_deref(), Some("a domesticated canine"));
    assert_eq!(results[0].lemmas, vec!["dog", "domestic dog"]);
    assert_eq!(results[0].meta["k"], 1);
}

#[test]
fn lookup_is_case_insensitive_and_falls_back_to_english() {
    let mut db = Db::new(fixture());
    assert_eq!(lookup(&mut db, "DOG", "en").unwrap().len(), 1);
    assert_eq!(lookup(&mut db, "dog", "cmn").unwrap().len(), 1);
    assert!(lookup(&mut db, "no-such-word", "en").unwrap().is_empty());
}

#[test]
fn hierarchy_walks_hypernym_chain_up_to_root() {
    let mut db = Db::new(fixture());
    let chain = hierarchy(&mut db, "o-dog.n").unwrap();
    let ids: Vec<&str> = chain.iter().map(|n| n.synset_id.as_str()).collect();
    assert_eq!(ids, vec!["o-animal.n", "o-organism.n"]);
    assert!(chain.iter().all(|n| n.rel_type == "hypernym"));
    assert_eq!(chain[0].lemmas, vec!["animal"]);
}

#[test]
fn hierarchy_terminates_on_cycle() {
    let mut db = Db::new(fixture());
    db.connection().execute(
        "INSERT INTO omw_relations (source_id, target_id, rel_type) VALUES ('o-organism.n', 'o-dog.n', 'hypernym')",
        [],
    )
    .unwrap();
    let chain = hierarchy(&mut db, "o-dog.n").unwrap();
    assert!(chain.len() <= HIERARCHY_MAX_DEPTH);
    assert!(!chain.iter().any(|n| n.synset_id == "o-dog.n"));
}

#[test]
fn antonyms_prefers_antonym_pairs() {
    let mut db = Db::new(fixture());
    let results = antonyms(&mut db, "dog", "cmn").unwrap();
    assert_eq!(results.len(), 1);
    assert_eq!(results[0].antonym, "cat");
    assert_eq!(results[0].source, "antonym.txt");
    assert_eq!(results[0].language, "cmn");
}

#[test]
fn antonyms_falls_back_to_omw_sense_relations() {
    let mut db = Db::new(fixture());
    let results = antonyms(&mut db, "animal", "en").unwrap();
    assert_eq!(results.len(), 1);
    assert_eq!(results[0].antonym, "plant");
    assert_eq!(results[0].source, "omw_sense_relations");
}

#[test]
fn describe_returns_first_non_empty_definition() {
    let mut db = Db::new(fixture());
    assert_eq!(
        describe(&mut db, "dog", "en").unwrap().as_deref(),
        Some("a domesticated canine")
    );
    assert_eq!(describe(&mut db, "organism", "en").unwrap(), None);
    assert_eq!(describe(&mut db, "no-such-word", "en").unwrap(), None);
}

#[test]
fn mapping_reverses_builtin_tags_sharing_omw_parent() {
    let mut db = Db::new(fixture());
    let reg = TagRegistry::new();
    let results = mapping(&mut db, &reg, "狗").unwrap();
    let codes: Vec<&str> = results.iter().map(|r| r.tag_code.as_str()).collect();
    assert_eq!(codes, vec!["builtin.cat", "builtin.pet"]);
    assert!(results.iter().all(|r| r.match_level == 1));
}

#[test]
fn mapping_returns_empty_without_omw_parents() {
    let mut db = Db::new(fixture());
    let reg = TagRegistry::new();
    assert!(mapping(&mut db, &reg, "无关").unwrap().is_empty());
    assert!(mapping(&mut db, &reg, "不存在的标签").unwrap().is_empty());
}

#[test]
fn mapping_uses_no_tag_omw_mapping_table() {
    let mut db = Db::new(fixture());
    let reg = TagRegistry::new();
    let exists: i64 = db
        .connection()
        .query_row(
            "SELECT COUNT(*) FROM sqlite_master WHERE type='table' AND name='tag_omw_mapping'",
            [],
            |row| row.get(0),
        )
        .unwrap();
    assert_eq!(exists, 0);
    assert!(!mapping(&mut db, &reg, "狗").unwrap().is_empty());
}

#[test]
fn tree_returns_one_layer_children_of_root() {
    let mut db = Db::new(fixture());
    let started = std::time::Instant::now();
    let nodes = tree(&mut db, "omw.o-dog.n", 1).unwrap();
    assert!(
        started.elapsed() < std::time::Duration::from_millis(50),
        "one-layer tree query took {:?}",
        started.elapsed()
    );
    let codes: Vec<&str> = nodes.iter().map(|n| n.code.as_str()).collect();
    assert_eq!(codes, vec!["builtin.cat", "builtin.dog", "builtin.pet"]);
    assert!(nodes.iter().all(|n| n.source == "builtin"));
}

#[test]
fn tree_returns_empty_for_unknown_root() {
    let mut db = Db::new(fixture());
    let nodes = tree(&mut db, "no-such-code", 1).unwrap();
    assert!(nodes.is_empty());
}

#[test]
fn unmapped_stats_counts_synsets_not_in_any_parent_codes() {
    let mut db = Db::new(fixture());
    let stats = unmapped_stats(&mut db).unwrap();
    assert_eq!(stats.by_lexfile.iter().map(|g| g.count).sum::<i64>(), 3);
    let top_entity = stats.by_top_ancestor.iter().find(|g| g.key == "noun.entity").unwrap();
    assert_eq!(top_entity.count, 2);
    let top_plant = stats.by_top_ancestor.iter().find(|g| g.key == "noun.plant").unwrap();
    assert_eq!(top_plant.count, 1);
    assert!(!stats.by_top_ancestor.iter().any(|g| g.key == "noun.animal"));
}

fn pair(a: &str, b: &str) -> (String, String) {
    (a.to_string(), b.to_string())
}

#[test]
fn mapping_answer_follows_the_rows_read() {
    let reg = TagRegistry::new();
    let self_rows = vec![pair("builtin.dog", "[\"omw.o-dog.n\", \"builtin.pet\"]")];
    let reverse = vec![pair("builtin.cat", "猫"), pair("builtin.dog", "狗"), pair("builtin.pet", "宠物")];
    let r = mapping_from_rows(&reg, "狗", &self_rows, &None, &Vec::new(), &Vec::new(), &reverse);
    let codes: Vec<&str> = r.iter().map(|t| t.tag_code.as_str()).collect();
    assert_eq!(codes, vec!["builtin.cat", "builtin.pet"]);
    assert!(r.iter().all(|t| t.match_level == 1));
    let no_omw = vec![pair("builtin.unrelated", "[]")];
    assert!(mapping_from_rows(&reg, "无关", &no_omw, &None, &Vec::new(), &Vec::new(), &reverse).is_empty());
}

#[test]
fn synsets_and_antonyms_follow_the_rows_read() {
    let raw = vec![(
        Some("s1".to_string()),
        Some("n".to_string()),
        None,
        Some("a dog".to_string()),
        None,
    )];
    let lists = vec![vec!["dog".to_string(), "hound".to_string()]];
    let v = match synsets_from_rows(&raw, &lists) {
        Ok(v) => v,
        Err(_) => panic!("rows are complete"),
    };
    assert_eq!(v.len(), 1);
    assert_eq!(v[0].id, "s1");
    assert_eq!(v[0].definition.as_deref(), Some("a dog"));
    assert_eq!(v[0].lemmas, vec!["dog".to_string(), "hound".to_string()]);
    let missing = vec![(None, Some("n".to_string()), None, None, None)];
    assert!(synsets_from_rows(&missing, &vec![Vec::new()]).is_err());

    let rows = vec![(
        "hot".to_string(),
        "cold".to_string(),
        "manual".to_string(),
        "en".to_string(),
    )];
    let a = antonyms_from_rows("cold", "en", &rows, &Vec::new());
    assert_eq!(a.len(), 1);
    assert_eq!(a[0].antonym, "hot");
    let b = antonyms_from_rows("cold", "zh-CN", &Vec::new(), &vec!["hot".to_string()]);
    assert_eq!(b[0].source, "omw_sense_relations");
    assert_eq!(b[0].language, "cmn");
}

#[test]
fn hierarchy_step_keeps_new_parents_in_order_with_their_lemmas() {
    let visited = vec!["a".to_string()];
    let rows = vec![
        ("hypernym".to_string(), "a".to_string(), "n".to_string()),
        ("hypernym".to_string(), "b".to_string(), "n".to_string()),
        ("hypernym".to_string(), "b".to_string(), "v".to_string()),
        ("instance_hypernym".to_string(), "c".to_string(), "a".to_string()),
    ];
    let lemmas = vec![vec!["bee".to_string()], vec!["sea".to_string(), "ocean".to_string()]];
    let nodes = hierarchy_step(&visited, &rows, &lemmas);
    assert_eq!(nodes.len(), 2);
    assert_eq!(nodes[0].synset_id, "b");
    assert_eq!(nodes[0].rel_type, "hypernym");
    assert_eq!(nodes[0].pos, "n");
    assert_eq!(nodes[0].lemmas, vec!["bee"]);
    assert_eq!(nodes[1].synset_id, "c");
    assert_eq!(nodes[1].rel_type, "instance_hypernym");
    assert_eq!(nodes[1].pos, "a");
    assert_eq!(nodes[1].lemmas, vec!["sea", "ocean"]);
}

#[test]
fn hierarchy_step_without_new_parents_is_empty() {
    let visited = vec!["a".to_string(), "b".to_string()];
    let rows = vec![("hypernym".to_string(), "b".to_string(), "n".to_string())];
    let lemmas: Vec<Vec<String>> = Vec::new();
    assert!(hierarchy_step(&visited, &rows, &lemmas).is_empty());
}

#[test]
fn normalized_language_codes_normalize_to_themselves() {
    for lang in ["zh-CN", "en-US", "ja", "fr_FR", "de", "es-MX", "pt-BR", "ru", "it", "xx", " ENG "] {
        let once = normalize_omw_language(lang);
        assert_eq!(normalize_omw_language(once), once);
    }
    assert_eq!(normalize_omw_language(" ENG "), "en");
    assert_eq!(normalize_omw_language("JPN"), "jpn");
}
