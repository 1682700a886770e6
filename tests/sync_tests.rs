use softwarehub::icons::{begin_icon_cache, finish_icon_cache, icon_data_url, IconStep};
use softwarehub::json::JsonValue;
use softwarehub::remote::{
    collection_response, parse_app_from_json, parse_app_id_list, parse_collection, CatalogError,
    CollectionKind, CollectionResponse, RetryPolicy,
};
use softwarehub::store::CatalogStore;
use softwarehub::sync::{
    apply_full_chunk_now, refresh_categories_now,
    apply_full_chunk, apply_incremental, begin_refresh, chunk_of, collections_progress_event,
    complete_event, curated_collections, error_event, refresh_categories, select_changed,
    static_categories, store_collection, refresh_plan, RefreshMode, RefreshStep, Stage,
};
use softwarehub::types::{has_app_changed, CachedApp};

fn text(s: &str) -> JsonValue {
    JsonValue::Str(s.to_string())
}

fn object(members: Vec<(&str, JsonValue)>) -> JsonValue {
    JsonValue::Object(members.into_iter().map(|(k, v)| (k.to_string(), v)).collect())
}

fn detail(id: &str, name: &str, description: &str, icon: Option<&str>) -> JsonValue {
    let mut members = vec![("app_id", text(id)), ("name", text(name)), ("description", text(description))];
    if let Some(u) = icon {
        members.push(("iconDesktopUrl", text(u)));
    }
    object(members)
}

fn hits(ids: &[&str]) -> JsonValue {
    JsonValue::Array(ids.iter().map(|id| object(vec![("app_id", text(id))])).collect())
}

#[test]
fn parse_app_uses_aliases_in_order() {
    let doc = object(vec![
        ("id", text("org.id")),
        ("flatpakAppId", text("org.flatpak")),
        ("name", text("Name")),
        ("summary", text("Sum")),
        ("icon", text("https://i/x.png")),
    ]);
    let a = parse_app_from_json(&doc, 42).unwrap();
    assert_eq!(a.app_id, "org.id");
    assert_eq!(a.download_flatpak_ref.as_deref(), Some("org.id"));
    assert_eq!(a.name.as_deref(), Some("Name"));
    assert_eq!(a.summary.as_deref(), Some("Sum"));
    assert_eq!(a.description, None);
    assert_eq!(a.icon_url.as_deref(), Some("https://i/x.png"));
    assert_eq!(a.cached_at, 42);
    assert_eq!(a.icon_data, None);

    let both = object(vec![
        ("iconDesktopUrl", text("https://desk")),
        ("icon", text("https://plain")),
        ("flatpakAppId", text("org.f")),
    ]);
    let b = parse_app_from_json(&both, 0).unwrap();
    assert_eq!(b.app_id, "org.f");
    assert_eq!(b.icon_url.as_deref(), Some("https://desk"));
}

#[test]
fn parse_app_without_identifier_fails() {
    let doc = object(vec![("name", text("X"))]);
    assert_eq!(parse_app_from_json(&doc, 0).unwrap_err(), CatalogError::MissingAppId);
    let not_text = object(vec![("app_id", JsonValue::Number(Some(3))), ("id", text("later"))]);
    assert_eq!(parse_app_from_json(&not_text, 0).unwrap().app_id, "later");
    let none_text = object(vec![("app_id", JsonValue::Null), ("id", JsonValue::Bool(true))]);
    assert_eq!(parse_app_from_json(&none_text, 0).unwrap_err(), CatalogError::MissingAppId);
    let icon_fallback = object(vec![("id", text("a")), ("iconDesktopUrl", JsonValue::Null), ("icon", text("https://i"))]);
    assert_eq!(parse_app_from_json(&icon_fallback, 0).unwrap().icon_url.as_deref(), Some("https://i"));
}

#[test]
fn parse_collection_reads_members_and_total() {
    let doc = object(vec![
        (
            "hits",
            JsonValue::Array(vec![
                object(vec![("app_id", text("a"))]),
                object(vec![("flatpakAppId", text("b"))]),
                object(vec![("name", text("no id"))]),
                object(vec![("app_id", JsonValue::Number(Some(5))), ("flatpakAppId", text("c"))]),
            ]),
        ),
        ("totalHits", JsonValue::Number(Some(1234))),
    ]);
    let page = parse_collection(&doc, CollectionKind::Curated).unwrap();
    assert_eq!(page.app_ids, vec!["a".to_string(), "b".to_string(), "c".to_string()]);
    assert_eq!(page.total_hits, 1234);
    let hits_not_array = object(vec![("hits", JsonValue::Null), ("apps", hits(&["q"]))]);
    assert_eq!(parse_collection(&hits_not_array, CollectionKind::Category).unwrap().app_ids, vec!["q".to_string()]);

    let apps_key = object(vec![("apps", hits(&["x", "y", "z"]))]);
    let cat = parse_collection(&apps_key, CollectionKind::Category).unwrap();
    assert_eq!(cat.app_ids.len(), 3);
    assert_eq!(cat.total_hits, 3);
    assert_eq!(parse_collection(&apps_key, CollectionKind::Curated).unwrap_err(), CatalogError::MissingMembers);
}

#[test]
fn collection_not_found_is_empty_not_error() {
    assert!(matches!(collection_response(CollectionKind::Curated, 404, None), CollectionResponse::Absent));
    assert!(matches!(collection_response(CollectionKind::Category, 404, None), CollectionResponse::Absent));
    assert!(matches!(collection_response(CollectionKind::Curated, 500, None), CollectionResponse::RetryLater));
    assert!(matches!(
        collection_response(CollectionKind::Curated, 403, None),
        CollectionResponse::Failed(CatalogError::Transport(403))
    ));
    assert!(matches!(
        collection_response(CollectionKind::Curated, 200, None),
        CollectionResponse::Failed(CatalogError::MalformedBody)
    ));
    let body = object(vec![("hits", hits(&["a", "b"]))]);
    match collection_response(CollectionKind::Curated, 200, Some(&body)) {
        CollectionResponse::Page(p) => assert_eq!(p.app_ids, vec!["a".to_string(), "b".to_string()]),
        other => panic!("unexpected {:?}", other),
    }
}

#[test]
fn retry_policy_limits_attempts() {
    assert!(RetryPolicy::unlimited().allows_retry(1_000_000));
    let p = RetryPolicy { max_attempts: Some(3) };
    assert!(p.allows_retry(2));
    assert!(!p.allows_retry(3));
}

#[test]
fn app_id_list_must_be_strings() {
    let ok = JsonValue::Array(vec![text("a"), text("b")]);
    assert_eq!(parse_app_id_list(&ok).unwrap(), vec!["a".to_string(), "b".to_string()]);
    let bad = JsonValue::Array(vec![text("a"), JsonValue::Null]);
    assert_eq!(parse_app_id_list(&bad).unwrap_err(), CatalogError::MalformedBody);
    assert_eq!(parse_app_id_list(&object(vec![])).unwrap_err(), CatalogError::MalformedBody);
}

#[test]
fn change_detection_compares_content_only() {
    let a = parse_app_from_json(&detail("x", "X", "one", None), 1).unwrap();
    let b = parse_app_from_json(&detail("x", "X", "two", None), 1).unwrap();
    let c = parse_app_from_json(&detail("x", "X", "one", None), 999).unwrap();
    assert!(has_app_changed(&a, &b));
    assert!(!has_app_changed(&a, &c));

    let mut store = CatalogStore::new();
    store.upsert_apps(vec![a]);
    let kept = select_changed(&store, vec![b, c]);
    assert_eq!(kept.len(), 1);
    assert_eq!(kept[0].description.as_deref(), Some("two"));
}

#[test]
fn incremental_overwrites_changed_description() {
    let mut store = CatalogStore::new();
    store.upsert_apps(vec![parse_app_from_json(&detail("x", "X", "old", None), 1).unwrap()]);
    let (written, jobs) = apply_incremental(&mut store, &vec![Some(detail("x", "X", "new", Some("https://i/x.png")))], 50);
    assert_eq!(written, vec!["x".to_string()]);
    let got = store.get_cached_app_sync("x").unwrap();
    assert_eq!(got.description.as_deref(), Some("new"));
    assert_eq!(got.cached_at, 50);
    assert_eq!(jobs.len(), 1);
    assert_eq!(jobs[0].icon_url, "https://i/x.png");
}

#[test]
fn incremental_with_identical_content_writes_nothing() {
    let mut store = CatalogStore::new();
    let first = vec![Some(detail("x", "X", "same", Some("https://i/x.png")))];
    apply_full_chunk(&mut store, &first, 10);
    store.set_icon_data("x", vec![1, 2]);
    let (written, jobs) = apply_incremental(&mut store, &first, 20);
    assert!(written.is_empty());
    assert!(jobs.is_empty());
    let got = store.get_cached_app_sync("x").unwrap();
    assert_eq!(got.cached_at, 10);
    assert_eq!(got.icon_data, Some(vec![1, 2]));
}

#[test]
fn icon_caching_is_idempotent() {
    let mut store = CatalogStore::new();
    store.upsert_apps(vec![parse_app_from_json(&detail("x", "X", "d", Some("https://i/x.png")), 1).unwrap()]);
    assert_eq!(begin_icon_cache(&store, "x"), IconStep::Download);
    assert_eq!(finish_icon_cache(&mut store, "x", 200, vec![7, 7]), Ok(()));
    assert_eq!(begin_icon_cache(&store, "x"), IconStep::AlreadyPresent);
    assert_eq!(begin_icon_cache(&store, "x"), IconStep::AlreadyPresent);
    assert_eq!(store.get_cached_app_sync("x").unwrap().name.as_deref(), Some("X"));
}

#[test]
fn failed_icon_download_stores_nothing() {
    let mut store = CatalogStore::new();
    store.upsert_apps(vec![parse_app_from_json(&detail("x", "X", "d", None), 1).unwrap()]);
    assert_eq!(finish_icon_cache(&mut store, "x", 404, vec![1]), Err(CatalogError::Transport(404)));
    assert_eq!(store.get_cached_app_sync("x").unwrap().icon_data, None);
    assert_eq!(finish_icon_cache(&mut store, "x", 200, vec![]), Ok(()));
    assert_eq!(begin_icon_cache(&store, "x"), IconStep::Download);
}

#[test]
fn full_refresh_of_three_apps() {
    let mut store = CatalogStore::new();
    store.upsert_apps(vec![parse_app_from_json(&detail("stale", "S", "d", None), 1).unwrap()]);
    begin_refresh(&mut store, RefreshMode::Full);
    assert_eq!(store.app_count(), 0);
    let results = vec![
        Some(detail("org.a", "A", "a", Some("https://dl.flathub.org/a.png"))),
        Some(detail("org.b", "B", "b", Some("https://dl.flathub.org/b.png"))),
        Some(detail("org.c", "C", "c", Some("https://other.example/c.png"))),
    ];
    let ids = vec!["org.a".to_string(), "org.b".to_string(), "org.c".to_string()];
    assert_eq!(chunk_of(&ids, 0), ids);
    let (written, jobs) = apply_full_chunk(&mut store, &results, 5);
    assert_eq!(written, ids);
    assert_eq!(jobs.len(), 3);
    refresh_categories(&mut store, 5);
    assert_eq!(store.get_cached_categories_sync().len(), 10);
    let count = store.app_count() as u64;
    assert_eq!(count, 3);
    let done = complete_event(RefreshMode::Full, count);
    assert_eq!(done.stage, Stage::Complete);
    assert_eq!(done.progress, 3);
    assert_eq!(done.total, 3);
    assert_eq!(done.message, "Cache complete! Cached 3 apps");
}

#[test]
fn full_chunk_drops_failed_items() {
    let mut store = CatalogStore::new();
    let results = vec![None, Some(object(vec![("name", text("no id"))])), Some(detail("ok", "OK", "d", None))];
    let (written, jobs) = apply_full_chunk(&mut store, &results, 3);
    assert_eq!(written, vec!["ok".to_string()]);
    assert!(jobs.is_empty());
    assert_eq!(store.app_count(), 1);
    assert!(store.get_cached_app_sync("ok").is_some());
}

#[test]
fn chunks_hold_at_most_two_hundred_fifty_ids() {
    let ids: Vec<String> = (0..600).map(|i| format!("id{}", i)).collect();
    assert_eq!(chunk_of(&ids, 0).len(), 250);
    assert_eq!(chunk_of(&ids, 250)[0], "id250");
    assert_eq!(chunk_of(&ids, 500).len(), 100);
    assert!(chunk_of(&ids, 600).is_empty());
}

#[test]
fn static_category_list() {
    let cats = static_categories(9);
    assert_eq!(cats.len(), 10);
    assert_eq!(cats[0].id, "AudioVideo");
    assert_eq!(cats[0].name, "Audio & Video");
    assert_eq!(cats[3].name, "Games");
    assert_eq!(cats[9].id, "Utility");
    assert!(cats.iter().all(|c| c.cached_at == 9));
    assert_eq!(curated_collections(), vec!["popular", "trending", "recently-updated"]);
}

#[test]
fn stored_collection_replaces_members() {
    let mut store = CatalogStore::new();
    let body = object(vec![("hits", hits(&["a", "b", "c"])), ("totalHits", JsonValue::Number(Some(99)))]);
    let page = parse_collection(&body, CollectionKind::Curated).unwrap();
    let ids = store_collection(&mut store, "popular", page, 4).unwrap();
    assert_eq!(ids, vec!["a".to_string(), "b".to_string(), "c".to_string()]);
    let stored = store.get_cached_category_collection_sync("popular").unwrap();
    assert_eq!(stored.total_hits, 99);
    assert_eq!(stored.cached_at, 4);
}

#[test]
fn progress_messages() {
    let e = collections_progress_event(3, 10);
    assert_eq!(e.stage, Stage::FetchingCollections);
    assert_eq!(e.message, "Fetched 3/10 collections");
    let u = complete_event(RefreshMode::Incremental, 1205);
    assert_eq!(u.message, "Cache updated! 1205 apps cached");
    let z = complete_event(RefreshMode::Full, 0);
    assert_eq!(z.message, "Cache complete! Cached 0 apps");
    let err = error_event(RefreshMode::Full, "disk full".to_string());
    assert_eq!(err.stage, Stage::Error);
    assert_eq!(err.message, "Cache initialization failed");
    assert_eq!(err.details.as_deref(), Some("disk full"));
}

#[test]
fn icon_data_url_encodes_bytes() {
    assert_eq!(icon_data_url(&b"<svg/>".to_vec()), "data:image/svg+xml;base64,PHN2Zy8+");
    assert_eq!(icon_data_url(&b"hello".to_vec()), "data:image/png;base64,aGVsbG8=");
    assert_eq!(icon_data_url(&vec![]), "data:image/png;base64,");
}

#[test]
fn cached_app_clone_keeps_fields() {
    let a = CachedApp {
        app_id: "x".to_string(),
        name: None,
        description: None,
        summary: None,
        download_flatpak_ref: None,
        icon_url: None,
        icon_path: Some("/p".to_string()),
        icon_data: None,
        cached_at: 3,
    };
    let b = a.duplicate();
    assert_eq!(b.icon_path.as_deref(), Some("/p"));
    assert_eq!(b.cached_at, 3);
}

#[test]
fn refresh_plans_order_steps() {
    let full = refresh_plan(RefreshMode::Full, 2);
    assert_eq!(
        full,
        vec![
            RefreshStep::ClearAll,
            RefreshStep::FetchCurated(0),
            RefreshStep::FetchCurated(1),
            RefreshStep::FetchCurated(2),
            RefreshStep::LaunchBackground,
            RefreshStep::RefreshCategories,
            RefreshStep::FetchCategory(0),
            RefreshStep::FetchCategory(1),
            RefreshStep::Complete,
        ]
    );
    let inc = refresh_plan(RefreshMode::Incremental, 0);
    assert_eq!(
        inc,
        vec![
            RefreshStep::FetchCurated(0),
            RefreshStep::FetchCurated(1),
            RefreshStep::FetchCurated(2),
            RefreshStep::LaunchBackground,
            RefreshStep::Complete,
        ]
    );
}

#[test]
fn current_time_stamps_records() {
    let mut store = CatalogStore::new();
    let (written, _) = apply_full_chunk_now(&mut store, &vec![Some(detail("now", "N", "d", None))]);
    assert_eq!(written, vec!["now".to_string()]);
    assert!(store.get_cached_app_sync("now").unwrap().cached_at > 1_600_000_000);
    refresh_categories_now(&mut store);
    let cats = store.get_cached_categories_sync();
    assert_eq!(cats.len(), 10);
    assert!(cats.iter().all(|c| c.cached_at > 1_600_000_000));
}
