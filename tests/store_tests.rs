use softwarehub::json::JsonValue;
use softwarehub::store::{CatalogStore, Projection, StoreError};
use softwarehub::types::{CachedApp, CachedCategory, CachedCategoryCollection};

fn app(id: &str, name: Option<&str>, summary: Option<&str>, description: Option<&str>) -> CachedApp {
    CachedApp {
        app_id: id.to_string(),
        name: name.map(|s| s.to_string()),
        description: description.map(|s| s.to_string()),
        summary: summary.map(|s| s.to_string()),
        download_flatpak_ref: Some(id.to_string()),
        icon_url: None,
        icon_path: None,
        icon_data: None,
        cached_at: 100,
    }
}

fn collection(id: &str, members: &[&str]) -> CachedCategoryCollection {
    CachedCategoryCollection {
        category_id: id.to_string(),
        app_ids: members.iter().map(|s| s.to_string()).collect(),
        total_hits: members.len(),
        cached_at: 7,
    }
}

fn ids_of(apps: &[CachedApp]) -> Vec<String> {
    apps.iter().map(|a| a.app_id.clone()).collect()
}

#[test]
fn upsert_then_read_returns_fields_last_written() {
    let mut store = CatalogStore::new();
    let mut first = app("org.a", Some("A"), Some("sum"), Some("desc"));
    first.icon_url = Some("https://x/a.png".to_string());
    store.upsert_apps(vec![first]);
    let second = app("org.a", None, Some("sum2"), None);
    store.upsert_apps(vec![second]);
    let got = store.get_cached_app_sync("org.a").unwrap();
    assert_eq!(got.name, None);
    assert_eq!(got.summary.as_deref(), Some("sum2"));
    assert_eq!(got.description, None);
    assert_eq!(got.icon_url, None);
    assert_eq!(got.cached_at, 100);
    assert_eq!(store.app_count(), 1);
}

#[test]
fn later_record_in_batch_wins() {
    let mut store = CatalogStore::new();
    store.upsert_apps(vec![app("org.a", Some("old"), None, None), app("org.a", Some("new"), None, None)]);
    assert_eq!(store.get_cached_app_sync("org.a").unwrap().name.as_deref(), Some("new"));
    assert_eq!(store.app_count(), 1);
    assert!(store.get_cached_app_sync("org.b").is_none());
}

#[test]
fn icon_write_touches_only_icon() {
    let mut store = CatalogStore::new();
    let mut a = app("org.a", Some("A"), Some("S"), Some("D"));
    a.icon_url = Some("https://x/a.png".to_string());
    store.upsert_apps(vec![a]);
    assert!(store.set_icon_data("org.a", vec![1, 2, 3]));
    let got = store.get_cached_app_sync("org.a").unwrap();
    assert_eq!(got.icon_data, Some(vec![1, 2, 3]));
    assert_eq!(got.name.as_deref(), Some("A"));
    assert_eq!(got.summary.as_deref(), Some("S"));
    assert_eq!(got.description.as_deref(), Some("D"));
    assert_eq!(got.icon_url.as_deref(), Some("https://x/a.png"));
    assert_eq!(got.cached_at, 100);
    assert!(store.set_icon_data("org.a", vec![4]));
    let again = store.get_cached_app_sync("org.a").unwrap();
    assert_eq!(again.icon_data, Some(vec![4]));
    assert_eq!(again.description.as_deref(), Some("D"));
    assert_eq!(again.cached_at, 100);
    assert!(!store.set_icon_data("org.missing", vec![1]));
    assert!(store.get_cached_app_sync("org.missing").is_none());
}

#[test]
fn replacing_collection_leaves_no_residue() {
    let mut store = CatalogStore::new();
    store.replace_collection(collection("Game", &["a", "b", "c"])).unwrap();
    store.replace_collection(collection("Game", &["x", "y"])).unwrap();
    let c = store.get_cached_category_collection_sync("Game").unwrap();
    assert_eq!(c.app_ids, vec!["x".to_string(), "y".to_string()]);
    assert_eq!(c.total_hits, 2);
    let (page, total) = store.collection_page_ids("Game", 10, 0);
    assert_eq!(page, vec!["x".to_string(), "y".to_string()]);
    assert_eq!(total, 2);
    let (second, _) = store.collection_page_ids("Game", 1, 1);
    assert_eq!(second, vec!["y".to_string()]);
}

#[test]
fn duplicate_member_is_refused() {
    let mut store = CatalogStore::new();
    store.replace_collection(collection("Game", &["a"])).unwrap();
    let r = store.replace_collection(collection("Game", &["x", "y", "x"]));
    assert_eq!(r, Err(StoreError::DuplicateMember));
    assert_eq!(store.get_cached_category_collection_sync("Game").unwrap().app_ids, vec!["a".to_string()]);
}

#[test]
fn page_of_fifty_members() {
    let mut store = CatalogStore::new();
    let names: Vec<String> = (0..50).map(|i| format!("app{}", i)).collect();
    let refs: Vec<&str> = names.iter().map(|s| s.as_str()).collect();
    store.replace_collection(collection("Office", &refs)).unwrap();
    let (page, total) = store.collection_page_ids("Office", 20, 30);
    assert_eq!(page, names[30..50].to_vec());
    assert_eq!(total, 50);
    let (first, total_first) = store.collection_page_ids("Office", 20, 0);
    assert_eq!(first, names[0..20].to_vec());
    assert_eq!(total_first, 50);
    let (beyond, total_beyond) = store.collection_page_ids("Office", 20, 60);
    assert!(beyond.is_empty());
    assert_eq!(total_beyond, 50);
    let (none, zero) = store.collection_page_ids("Missing", 20, 0);
    assert!(none.is_empty());
    assert_eq!(zero, 0);
}

#[test]
fn category_page_returns_apps_in_position_order() {
    let mut store = CatalogStore::new();
    store.upsert_apps(vec![
        app("c", Some("C"), None, Some("dc")),
        app("a", Some("A"), None, None),
        app("b", Some("B"), None, None),
    ]);
    store.replace_collection(collection("Game", &["b", "missing", "c", "a"])).unwrap();
    let (apps, total) = store.get_category_apps_page_sync("Game", 3, 0);
    assert_eq!(ids_of(&apps), vec!["b".to_string(), "c".to_string()]);
    assert_eq!(total, 4);
    assert_eq!(apps[1].description, None);
    assert_eq!(apps[1].cached_at, 0);
}

#[test]
fn batch_read_projects_columns() {
    let mut store = CatalogStore::new();
    let mut a = app("a", Some("A"), None, Some("desc"));
    a.icon_data = Some(vec![9]);
    store.upsert_apps(vec![a]);
    let ids = vec!["a".to_string(), "zz".to_string()];
    let minimal = store.get_apps_batch_opt(&ids, Projection::Minimal);
    assert_eq!(minimal.len(), 1);
    assert_eq!(minimal[0].description, None);
    assert_eq!(minimal[0].icon_data, None);
    assert_eq!(minimal[0].cached_at, 0);
    let with_icon = store.get_apps_batch_opt(&ids, Projection::WithIcon);
    assert_eq!(with_icon[0].icon_data, Some(vec![9]));
    assert_eq!(with_icon[0].description, None);
    let with_desc = store.get_apps_batch_opt(&ids, Projection::WithDescription);
    assert_eq!(with_desc[0].description.as_deref(), Some("desc"));
    assert_eq!(with_desc[0].icon_data, Some(vec![9]));
    assert_eq!(with_desc[0].cached_at, 0);
    let full = store.get_apps_batch_opt(&ids, Projection::Full);
    assert_eq!(full[0].cached_at, 100);
}

#[test]
fn search_ignores_ascii_case_and_caps_results() {
    let mut store = CatalogStore::new();
    store.upsert_apps(vec![
        app("a", Some("GIMP Editor"), None, None),
        app("b", None, Some("an image editor"), None),
        app("c", None, None, Some("Photo EDITING tool")),
        app("d", Some("Terminal"), Some("shell"), None),
    ]);
    let hits = store.search_cached_apps_sync("editor");
    assert_eq!(hits.iter().map(|h| h.app_id.clone()).collect::<Vec<_>>(), vec!["a".to_string(), "b".to_string()]);
    let edit = store.search_cached_apps_sync("EDIT");
    assert_eq!(edit.len(), 3);
    assert!(store.search_cached_apps_sync("nothing").is_empty());
    let mut many = CatalogStore::new();
    let batch: Vec<CachedApp> = (0..150).map(|i| app(&format!("app{}", i), Some("Match"), None, None)).collect();
    many.upsert_apps(batch);
    let capped = many.search_cached_apps_sync("match");
    assert_eq!(capped.len(), 100);
    assert_eq!(capped[0].app_id, "app0");
    assert_eq!(capped[99].app_id, "app99");
}

#[test]
fn homepage_keeps_each_collection_order() {
    let mut store = CatalogStore::new();
    let apps: Vec<CachedApp> = (0..12).map(|i| app(&format!("app{}", i), Some("N"), None, Some("d"))).collect();
    store.upsert_apps(apps);
    let popular: Vec<String> = (0..10).rev().map(|i| format!("app{}", i)).collect();
    let refs: Vec<&str> = popular.iter().map(|s| s.as_str()).collect();
    store.replace_collection(collection("popular", &refs)).unwrap();
    store.replace_collection(collection("trending", &["app3", "gone", "app1"])).unwrap();
    let (p, t, u) = store.get_homepage_collections_sync();
    assert_eq!(ids_of(&p), popular[0..8].to_vec());
    assert_eq!(ids_of(&t), vec!["app3".to_string(), "app1".to_string()]);
    assert!(u.is_empty());
    assert_eq!(p[0].description, None);
}

#[test]
fn curated_listing_rejects_unknown_names() {
    let mut store = CatalogStore::new();
    store.upsert_apps(vec![app("a", Some("A"), None, Some("desc"))]);
    store.replace_collection(collection("trending", &["a"])).unwrap();
    let listed = store.get_cached_collection_apps_sync("trending").unwrap();
    assert_eq!(ids_of(&listed), vec!["a".to_string()]);
    assert_eq!(listed[0].description.as_deref(), Some("desc"));
    assert_eq!(
        store.get_cached_collection_apps_sync("Game").unwrap_err(),
        softwarehub::remote::CatalogError::UnknownCollection
    );
}

#[test]
fn category_with_apps_header_has_no_members() {
    let mut store = CatalogStore::new();
    store.upsert_apps(vec![app("a", Some("A"), None, None), app("b", Some("B"), None, None)]);
    let mut c = collection("Game", &["b", "a"]);
    c.total_hits = 40;
    store.replace_collection(c).unwrap();
    let (header, apps) = store.get_category_with_apps_sync("Game", 1).unwrap();
    assert!(header.app_ids.is_empty());
    assert_eq!(header.total_hits, 40);
    assert_eq!(header.cached_at, 7);
    assert_eq!(ids_of(&apps), vec!["b".to_string()]);
    assert!(store.get_category_with_apps_sync("Nope", 5).is_none());
}

#[test]
fn known_categories_are_filtered_and_sorted() {
    let mut store = CatalogStore::new();
    let cats = vec![
        CachedCategory { id: "Utility".to_string(), name: "Utility".to_string(), cached_at: 1 },
        CachedCategory { id: "Bogus".to_string(), name: "Aaa".to_string(), cached_at: 1 },
        CachedCategory { id: "AudioVideo".to_string(), name: "Audio & Video".to_string(), cached_at: 1 },
        CachedCategory { id: "Game".to_string(), name: "Games".to_string(), cached_at: 1 },
    ];
    store.replace_category_set(&cats);
    let listed = store.get_cached_categories_sync();
    let names: Vec<String> = listed.iter().map(|c| c.name.clone()).collect();
    assert_eq!(names, vec!["Audio & Video".to_string(), "Games".to_string(), "Utility".to_string()]);
    store.replace_category_set(&vec![]);
    assert!(store.get_cached_categories_sync().is_empty());
}

#[test]
fn icon_urls_sniff_media_type() {
    let mut store = CatalogStore::new();
    store.upsert_apps(vec![app("png", None, None, None), app("jpg", None, None, None), app("none", None, None, None)]);
    store.set_icon_data("png", vec![0x89, 0x50, 0x4e, 0x47, 0x0d]);
    store.set_icon_data("jpg", vec![0xff, 0xd8, 0xff]);
    let urls = store.get_app_icons_batch_sync(&vec!["png".to_string(), "none".to_string(), "jpg".to_string(), "x".to_string()]);
    assert_eq!(urls[0].as_deref(), Some("data:image/png;base64,iVBORw0="));
    assert_eq!(urls[1], None);
    assert_eq!(urls[2].as_deref(), Some("data:image/jpeg;base64,/9j/"));
    assert_eq!(urls[3], None);
    assert_eq!(store.get_app_icon_data_url_sync("jpg").as_deref(), Some("data:image/jpeg;base64,/9j/"));
}

#[test]
fn clear_all_empties_store() {
    let mut store = CatalogStore::new();
    store.upsert_apps(vec![app("a", None, None, None)]);
    store.replace_collection(collection("Game", &["a"])).unwrap();
    assert!(store.is_cache_ready_sync());
    store.clear_all();
    assert!(!store.is_cache_ready_sync());
    assert!(store.get_cached_category_collection_sync("Game").is_none());
    assert!(store.get_cached_apps_sync().is_empty());
}

#[test]
fn json_get_finds_first_member() {
    let doc = JsonValue::Object(vec![
        ("k".to_string(), JsonValue::Number(Some(1))),
        ("k".to_string(), JsonValue::Number(Some(2))),
    ]);
    assert!(matches!(doc.get("k"), Some(JsonValue::Number(Some(1)))));
    assert!(doc.get("other").is_none());
    assert!(JsonValue::Null.get("k").is_none());
}

#[test]
fn batch_sync_keeps_descriptions_and_icons() {
    let mut store = CatalogStore::new();
    let mut a = app("a", Some("A"), None, Some("desc"));
    a.icon_data = Some(vec![1]);
    store.upsert_apps(vec![a, app("b", Some("B"), None, None)]);
    let got = store.get_cached_apps_batch_sync(&vec!["b".to_string(), "a".to_string()]);
    assert_eq!(ids_of(&got), vec!["b".to_string(), "a".to_string()]);
    assert_eq!(got[1].description.as_deref(), Some("desc"));
    assert_eq!(got[1].icon_data, Some(vec![1]));
    assert_eq!(got[1].cached_at, 0);
}

#[test]
fn batch_read_returns_each_record_once() {
    let mut store = CatalogStore::new();
    store.upsert_apps(vec![app("x", Some("X"), None, None), app("y", Some("Y"), None, None)]);
    let ids = vec!["x".to_string(), "y".to_string(), "x".to_string(), "none".to_string(), "y".to_string()];
    let got = store.get_apps_batch_opt(&ids, Projection::Full);
    assert_eq!(ids_of(&got), vec!["x".to_string(), "y".to_string()]);
}
