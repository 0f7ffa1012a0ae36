use firefly_omni::fs_search::{
    effective_fs_limit, fs_keyword, name_matches, plan_fs_search, FsMatchCollector, FsSearchItem,
    FsSearchPlan, FsSearchQuery,
};
use firefly_omni::server_api::{
    default_max_leaf_size, default_search_top_k, preview_mime_from_path, ReconnectRequest,
};
use firefly_omni::unmapped::unmapped_stats_from;
use firefly_omni::vector_api::{
    default_top_k, VectorDeletePayload, VectorDeleteResponse, VectorUpsertResponse,
};
use firefly_omni::server_api::health_report;
use firefly_omni::server_api::config_app_name;

fn query(dir: &str, q: &str, limit: Option<usize>) -> FsSearchQuery {
    FsSearchQuery { dir: dir.to_string(), q: q.to_string(), limit }
}

fn item(name: &str) -> FsSearchItem {
    FsSearchItem {
        name: name.to_string(),
        path: format!("/d/{}", name),
        size: 1,
        is_directory: false,
        extension: None,
        mtime: None,
    }
}

#[test]
fn search_limits_are_clamped() {
    assert_eq!(effective_fs_limit(None), 100);
    assert_eq!(effective_fs_limit(Some(0)), 1);
    assert_eq!(effective_fs_limit(Some(5000)), 2000);
    assert_eq!(effective_fs_limit(Some(42)), 42);
}

#[test]
fn search_plans_cover_each_outcome() {
    let p = plan_fs_search(&query("  ", "x", None), true);
    assert!(matches!(p, FsSearchPlan::MissingDir));
    assert_eq!(p.status_code(), 400);
    let p = plan_fs_search(&query(" /nope ", "x", None), false);
    assert_eq!(p.status_code(), 404);
    let resp = p.immediate_response(7).unwrap();
    assert_eq!(resp.error.as_deref(), Some("搜索目录不存在: /nope"));
    assert_eq!(resp.duration_ms, 7);
    let p = plan_fs_search(&query("/d", "  ", None), true);
    assert!(matches!(p, FsSearchPlan::EmptyKeyword));
    let resp = p.immediate_response(0).unwrap();
    assert!(resp.error.is_none());
    assert_eq!(resp.source, "fast_walk");
    let p = plan_fs_search(&query("/d", " Rep ", Some(3)), true);
    match &p {
        FsSearchPlan::Search { dir, keyword, limit } => {
            assert_eq!(dir, "/d");
            assert_eq!(keyword, "Rep");
            assert_eq!(*limit, 3);
        },
        _ => panic!("expected a search"),
    }
    assert!(p.immediate_response(0).is_none());
}

#[test]
fn names_match_case_insensitively() {
    let k = fs_keyword("Report");
    assert_eq!(k, "report");
    assert!(name_matches("Annual_REPORT.pdf", &k));
    assert!(!name_matches("notes.txt", &k));
}

#[test]
fn collector_keeps_first_matches_and_stops_at_limit() {
    let mut c = FsMatchCollector::new(2);
    assert!(c.offer(item("a")));
    assert!(!c.offer(item("b")));
    assert!(!c.offer(item("c")));
    let items = c.into_items();
    let names: Vec<&str> = items.iter().map(|i| i.name.as_str()).collect();
    assert_eq!(names, vec!["a", "b"]);
}

#[test]
fn preview_types_follow_the_path_ending() {
    assert_eq!(preview_mime_from_path("/x/Photo.JPG"), Some("image/jpeg"));
    assert_eq!(preview_mime_from_path("a.m4v"), Some("video/mp4"));
    assert_eq!(preview_mime_from_path("a.opus"), Some("audio/opus"));
    assert_eq!(preview_mime_from_path("a.pdf"), None);
}

#[test]
fn reconnect_targets_trimmed_path() {
    let r = ReconnectRequest { db_path: Some("  /db/omw.sqlite ".to_string()) };
    assert_eq!(r.target_path().as_deref(), Some("/db/omw.sqlite"));
    assert_eq!(ReconnectRequest { db_path: Some("  ".to_string()) }.target_path(), None);
    assert_eq!(ReconnectRequest { db_path: None }.target_path(), None);
}

#[test]
fn defaults_of_search_and_vector_requests() {
    assert_eq!(default_search_top_k(), 20);
    assert_eq!(default_max_leaf_size(), 50);
    assert_eq!(default_top_k(), 10);
}

#[test]
fn vector_answers() {
    let d = VectorDeleteResponse::nothing_to_delete();
    assert!(d.success && d.deleted_count == 0 && d.error.is_none());
    let (code, resp) = VectorDeleteResponse::from_outcome(Err("boom".to_string()));
    assert_eq!(code, 500);
    assert!(!resp.success);
    let (code, resp) = VectorUpsertResponse::from_outcome(Ok(3));
    assert_eq!(code, 200);
    assert_eq!(resp.count, 3);
    let (code, _) = VectorUpsertResponse::from_outcome(Err("bad".to_string()));
    assert_eq!(code, 400);
    assert!(VectorUpsertResponse::nothing_to_upsert().success);
    let single = VectorDeletePayload::Single { file_fingerprint: "f".to_string() };
    assert_eq!(single.into_fingerprints(), vec!["f".to_string()]);
}

#[test]
fn unmapped_groups_count_by_lexfile_and_root() {
    let referenced = vec![Some("omw.2".to_string()), None];
    let synsets = vec![
        Some(("1".to_string(), Some("noun.animal".to_string()))),
        Some(("2".to_string(), Some("noun.animal".to_string()))),
        Some(("3".to_string(), Some("noun.plant".to_string()))),
        None,
    ];
    let relations = vec![Some(("1".to_string(), "3".to_string()))];
    let stats = unmapped_stats_from(&referenced, &synsets, &relations);
    let by_lexfile: Vec<(&str, i64)> = stats.by_lexfile.iter().map(|g| (g.key.as_str(), g.count)).collect();
    assert_eq!(by_lexfile, vec![("noun.animal", 1), ("noun.plant", 1)]);
    let by_top: Vec<(&str, i64)> = stats.by_top_ancestor.iter().map(|g| (g.key.as_str(), g.count)).collect();
    assert_eq!(by_top, vec![("noun.plant", 2)]);
}

#[test]
fn health_counts_pro_subsystems_only_with_pro() {
    let open = health_report(false, true, true, true, true);
    assert!(!open.geo_available && !open.hownet_available && !open.search_available && !open.cleanup_available);
    assert!(open.omw_available);
    let pro = health_report(true, true, false, true, false);
    assert!(pro.geo_available && !pro.hownet_available && pro.search_available && pro.cleanup_available);
    assert!(!pro.omw_available);
}

#[test]
fn configuration_folder_name() {
    assert_eq!(config_app_name(Some("firefly-ai-folder-intl")), "firefly-ai-folder-intl");
    assert_eq!(config_app_name(Some("  ")), "firefly-ai-folder");
    assert_eq!(config_app_name(None), "firefly-ai-folder");
}
