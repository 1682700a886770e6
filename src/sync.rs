use vstd::prelude::*;
use vstd::string::*;
use crate::json::{JsonValue, keys_view};
use crate::remote::{CollectionPage, parse_app_from_json, app_from_json};
use crate::store::{
    min, CatalogStore, StoreError, upsert_all, app_views, category_views, has_icon_bytes,
};
use crate::types::{
    AppView, CachedApp, CachedCategory, CachedCategoryCollection, CategoryView, same_content,
    has_app_changed, strings_view, copy_strings,
};
use crate::text::decimal_text;
use crate::clock::unix_seconds;

verus! {

/// How many app identifiers one chunk of a full refresh fetches at a time.
pub const APPS_PER_PAGE: usize = 250;

/// The curated collections, in the order in which a refresh fetches them.
pub open spec fn curated_names() -> Seq<Seq<char>> {
    seq!["popular"@, "trending"@, "recently-updated"@]
}

/// The curated collection names, in refresh order.
pub fn curated_collections() -> (r: Vec<&'static str>)
    ensures
        keys_view(r@) == curated_names(),
{
    let r = vec!["popular", "trending", "recently-updated"];
    assert(keys_view(r@) =~= curated_names());
    r
}

/// The fixed category codes.
pub open spec fn category_codes() -> Seq<Seq<char>> {
    seq![
        "AudioVideo"@, "Development"@, "Education"@, "Game"@, "Graphics"@,
        "Network"@, "Office"@, "Science"@, "System"@, "Utility"@,
    ]
}

/// The display labels of the fixed categories, in the order of their codes.
pub open spec fn category_labels() -> Seq<Seq<char>> {
    seq![
        "Audio & Video"@, "Development"@, "Education"@, "Games"@, "Graphics"@,
        "Network"@, "Office"@, "Science"@, "System"@, "Utility"@,
    ]
}

/// The fixed category list, stamped with `cached_at`.
pub open spec fn static_category_views(cached_at: i64) -> Seq<CategoryView> {
    Seq::new(10, |i: int| CategoryView { id: category_codes()[i], name: category_labels()[i], cached_at })
}

pub(crate) fn category_code_list() -> (r: Vec<&'static str>)
    ensures
        keys_view(r@) == category_codes(),
{
    let r = vec![
        "AudioVideo", "Development", "Education", "Game", "Graphics",
        "Network", "Office", "Science", "System", "Utility",
    ];
    assert(keys_view(r@) =~= category_codes());
    r
}

fn category_label_list() -> (r: Vec<&'static str>)
    ensures
        keys_view(r@) == category_labels(),
{
    let r = vec![
        "Audio & Video", "Development", "Education", "Games", "Graphics",
        "Network", "Office", "Science", "System", "Utility",
    ];
    assert(keys_view(r@) =~= category_labels());
    r
}

/// The fixed list of topical categories, stamped with `cached_at`.
pub fn static_categories(cached_at: i64) -> (r: Vec<CachedCategory>)
    ensures
        category_views(r@) == static_category_views(cached_at),
{
    let codes = category_code_list();
    let labels = category_label_list();
    let mut r: Vec<CachedCategory> = Vec::new();
    let mut i: usize = 0;
    assert(keys_view(codes@).len() == 10);
    assert(keys_view(labels@).len() == 10);
    while i < 10
        invariant
            i <= 10,
            codes@.len() == 10,
            labels@.len() == 10,
            keys_view(codes@) == category_codes(),
            keys_view(labels@) == category_labels(),
            category_views(r@) == static_category_views(cached_at).take(i as int),
        decreases 10 - i,
    {
        let ghost prev = r@;
        let c = CachedCategory {
            id: String::from_str(codes[i]),
            name: String::from_str(labels[i]),
            cached_at,
        };
        assert(c@ == static_category_views(cached_at)[i as int]) by {
            assert(codes@[i as int]@ == category_codes()[i as int]);
            assert(labels@[i as int]@ == category_labels()[i as int]);
        }
        let ghost cv = c@;
        r.push(c);
        assert(category_views(r@) =~= category_views(prev).push(cv));
        assert(category_views(r@) =~= static_category_views(cached_at).take(i + 1));
        i = i + 1;
    }
    assert(static_category_views(cached_at).take(10) =~= static_category_views(cached_at));
    r
}

/// Persists the fixed category list, replacing whatever categories were
/// stored.
pub fn refresh_categories(store: &mut CatalogStore, cached_at: i64)
    requires
        old(store).wf(),
    ensures
        final(store).wf(),
        final(store).categories() == crate::store::category_table(static_category_views(cached_at)),
        final(store).apps() == old(store).apps(),
        final(store).collections() == old(store).collections(),
{
    let cats = static_categories(cached_at);
    store.replace_category_set(&cats);
}

/// The chunk of identifiers that starts at `start`: up to `APPS_PER_PAGE` of
/// them.
pub fn chunk_of(ids: &Vec<String>, start: usize) -> (r: Vec<String>)
    requires
        start <= ids@.len(),
    ensures
        strings_view(r@) == strings_view(ids@).subrange(
            start as int,
            min(start + APPS_PER_PAGE, ids@.len() as int),
        ),
{
    let end = if ids.len() - start > APPS_PER_PAGE { start + APPS_PER_PAGE } else { ids.len() };
    copy_strings(ids, start, end)
}

/// The records that parse among fetched detail documents, in order; a fetch
/// that failed (`None`) or a document that does not parse is dropped.
pub open spec fn parsed_apps(results: Seq<Option<JsonValue>>, cached_at: i64) -> Seq<AppView>
    decreases results.len(),
{
    if results.len() == 0 {
        Seq::empty()
    } else {
        let rest = parsed_apps(results.drop_last(), cached_at);
        match results.last() {
            Some(j) => match app_from_json(j, cached_at) {
                Some(a) => rest.push(a),
                None => rest,
            },
            None => rest,
        }
    }
}

/// Parses the fetched detail documents of one batch.
pub fn parse_fetched(results: &Vec<Option<JsonValue>>, cached_at: i64) -> (r: Vec<CachedApp>)
    ensures
        app_views(r@) == parsed_apps(results@, cached_at),
{
    let mut r: Vec<CachedApp> = Vec::new();
    let n = results.len();
    let mut i: usize = 0;
    while i < n
        invariant
            n == results@.len(),
            i <= n,
            app_views(r@) == parsed_apps(results@.take(i as int), cached_at),
        decreases n - i,
    {
        proof {
            assert(results@.take(i + 1).drop_last() =~= results@.take(i as int));
        }
        let ghost prev = r@;
        match &results[i] {
            Some(j) => match parse_app_from_json(j, cached_at) {
                Ok(a) => {
                    r.push(a);
                    assert(app_views(r@) =~= app_views(prev).push(a@));
                },
                Err(_) => {},
            },
            None => {},
        }
        i = i + 1;
    }
    assert(results@.take(n as int) =~= results@);
    r
}

/// Whether a fresh record must be written: it is new, or its content differs
/// from the stored record.
pub open spec fn needs_write(m: Map<Seq<char>, AppView>, a: AppView) -> bool {
    !m.contains_key(a.app_id) || !same_content(m[a.app_id], a)
}

/// The fresh records that must be written, in order.
pub open spec fn changed_apps(m: Map<Seq<char>, AppView>, fresh: Seq<AppView>) -> Seq<AppView>
    decreases fresh.len(),
{
    if fresh.len() == 0 {
        Seq::empty()
    } else {
        let rest = changed_apps(m, fresh.drop_last());
        if needs_write(m, fresh.last()) {
            rest.push(fresh.last())
        } else {
            rest
        }
    }
}

/// Keeps the fresh records that are new or whose content changed, comparing
/// each with the store.
pub fn select_changed(store: &CatalogStore, fresh: Vec<CachedApp>) -> (r: Vec<CachedApp>)
    requires
        store.wf(),
    ensures
        app_views(r@) == changed_apps(store.apps(), app_views(fresh@)),
{
    let ghost fv = app_views(fresh@);
    let mut r: Vec<CachedApp> = Vec::new();
    let n = fresh.len();
    let mut i: usize = 0;
    while i < n
        invariant
            store.wf(),
            n == fresh@.len(),
            fv == app_views(fresh@),
            i <= n,
            app_views(r@) == changed_apps(store.apps(), fv.take(i as int)),
        decreases n - i,
    {
        proof {
            assert(fv.take(i + 1).drop_last() =~= fv.take(i as int));
        }
        let ghost prev = r@;
        let keep = match store.get_cached_app_sync(fresh[i].app_id.as_str()) {
            Some(existing) => has_app_changed(&existing, &fresh[i]),
            None => true,
        };
        if keep {
            r.push(fresh[i].duplicate());
            assert(app_views(r@) =~= app_views(prev).push(fv[i as int]));
        }
        i = i + 1;
    }
    assert(fv.take(n as int) =~= fv);
    r
}

/// An icon to download for a record that was written.
#[derive(Debug)]
pub struct IconJob {
    pub app_id: String,
    pub icon_url: String,
}

/// The icon downloads that written records call for: each record with an
/// icon URL whose stored row holds no icon yet, in order.
pub open spec fn icon_jobs_of(m: Map<Seq<char>, AppView>, written: Seq<AppView>) -> Seq<(Seq<char>, Seq<char>)>
    decreases written.len(),
{
    if written.len() == 0 {
        Seq::empty()
    } else {
        let rest = icon_jobs_of(m, written.drop_last());
        let a = written.last();
        match a.icon_url {
            Some(u) => if m.contains_key(a.app_id) && has_icon_bytes(m[a.app_id]) {
                rest
            } else {
                rest.push((a.app_id, u))
            },
            None => rest,
        }
    }
}

pub open spec fn jobs_view(jobs: Seq<IconJob>) -> Seq<(Seq<char>, Seq<char>)> {
    jobs.map_values(|j: IconJob| (j.app_id@, j.icon_url@))
}

/// Lists the icon downloads that the written records call for.
pub fn icon_jobs(store: &CatalogStore, written: &Vec<CachedApp>) -> (r: Vec<IconJob>)
    requires
        store.wf(),
    ensures
        jobs_view(r@) == icon_jobs_of(store.apps(), app_views(written@)),
{
    let ghost wv = app_views(written@);
    let mut r: Vec<IconJob> = Vec::new();
    let n = written.len();
    let mut i: usize = 0;
    while i < n
        invariant
            store.wf(),
            n == written@.len(),
            wv == app_views(written@),
            i <= n,
            jobs_view(r@) == icon_jobs_of(store.apps(), wv.take(i as int)),
        decreases n - i,
    {
        proof {
            assert(wv.take(i + 1).drop_last() =~= wv.take(i as int));
        }
        let ghost prev = r@;
        match &written[i].icon_url {
            Some(u) => {
                if !store.has_icon(written[i].app_id.as_str()) {
                    let job = IconJob { app_id: written[i].app_id.clone(), icon_url: u.clone() };
                    r.push(job);
                    assert(jobs_view(r@) =~= jobs_view(prev).push((wv[i as int].app_id, u@)));
                }
            },
            None => {},
        }
        i = i + 1;
    }
    assert(wv.take(n as int) =~= wv);
    r
}

/// One chunk of a full refresh: parses what was fetched, writes every parsed
/// record as one batch, and gives back their identifiers and the icons to
/// download for them.
pub fn apply_full_chunk(store: &mut CatalogStore, results: &Vec<Option<JsonValue>>, cached_at: i64) -> (r: (Vec<String>, Vec<IconJob>))
    requires
        old(store).wf(),
    ensures
        final(store).wf(),
        final(store).apps() == upsert_all(old(store).apps(), parsed_apps(results@, cached_at)),
        final(store).categories() == old(store).categories(),
        final(store).collections() == old(store).collections(),
        strings_view(r.0@) == ids_of(parsed_apps(results@, cached_at)),
        jobs_view(r.1@) == icon_jobs_of(final(store).apps(), parsed_apps(results@, cached_at)),
{
    let batch = parse_fetched(results, cached_at);
    let ghost bv = app_views(batch@);
    let ids = app_ids_of(&batch);
    if batch.len() > 0 {
        let keep = copy_apps(&batch);
        store.upsert_apps(keep);
    } else {
        assert(upsert_all(store.apps(), bv) == store.apps());
    }
    (ids, icon_jobs(store, &batch))
}

/// A copy of each record.
pub fn copy_apps(apps: &Vec<CachedApp>) -> (r: Vec<CachedApp>)
    ensures
        app_views(r@) == app_views(apps@),
{
    let mut r: Vec<CachedApp> = Vec::new();
    let n = apps.len();
    let mut i: usize = 0;
    while i < n
        invariant
            n == apps@.len(),
            i <= n,
            app_views(r@) == app_views(apps@).take(i as int),
        decreases n - i,
    {
        let a = apps[i].duplicate();
        let ghost prev = r@;
        r.push(a);
        assert(app_views(r@) =~= app_views(prev).push(a@));
        assert(app_views(r@) =~= app_views(apps@).take(i + 1));
        i = i + 1;
    }
    assert(app_views(apps@).take(n as int) =~= app_views(apps@));
    r
}

/// The identifiers of records, in order.
pub open spec fn ids_of(apps: Seq<AppView>) -> Seq<Seq<char>> {
    apps.map_values(|a: AppView| a.app_id)
}

/// The identifiers of the records, in order.
pub fn app_ids_of(apps: &Vec<CachedApp>) -> (r: Vec<String>)
    ensures
        strings_view(r@) == ids_of(app_views(apps@)),
{
    let mut r: Vec<String> = Vec::new();
    let n = apps.len();
    let mut i: usize = 0;
    while i < n
        invariant
            n == apps@.len(),
            i <= n,
            strings_view(r@) == ids_of(app_views(apps@)).take(i as int),
        decreases n - i,
    {
        let id = apps[i].app_id.clone();
        let ghost prev = r@;
        r.push(id);
        assert(strings_view(r@) =~= strings_view(prev).push(id@));
        assert(strings_view(r@) =~= ids_of(app_views(apps@)).take(i + 1));
        i = i + 1;
    }
    assert(ids_of(app_views(apps@)).take(n as int) =~= ids_of(app_views(apps@)));
    r
}

/// The background part of an incremental refresh: parses the fetched details
/// of the recently updated apps, writes only the records that are new or
/// changed, and gives back their identifiers and the icons to download for
/// them.
pub fn apply_incremental(store: &mut CatalogStore, results: &Vec<Option<JsonValue>>, cached_at: i64) -> (r: (Vec<String>, Vec<IconJob>))
    requires
        old(store).wf(),
    ensures
        final(store).wf(),
        final(store).apps() == upsert_all(
            old(store).apps(),
            changed_apps(old(store).apps(), parsed_apps(results@, cached_at)),
        ),
        final(store).categories() == old(store).categories(),
        final(store).collections() == old(store).collections(),
        strings_view(r.0@) == ids_of(changed_apps(old(store).apps(), parsed_apps(results@, cached_at))),
        jobs_view(r.1@) == icon_jobs_of(
            final(store).apps(),
            changed_apps(old(store).apps(), parsed_apps(results@, cached_at)),
        ),
{
    let fresh = parse_fetched(results, cached_at);
    let written = select_changed(store, fresh);
    let ids = app_ids_of(&written);
    if written.len() > 0 {
        let keep = copy_apps(&written);
        store.upsert_apps(keep);
    } else {
        assert(upsert_all(store.apps(), app_views(written@)) == store.apps());
    }
    (ids, icon_jobs(store, &written))
}

/// Stores a fetched collection under `name`, replacing its header and its
/// whole membership list; gives back the member identifiers.
pub fn store_collection(store: &mut CatalogStore, name: &str, page: CollectionPage, cached_at: i64) -> (r: Result<Vec<String>, StoreError>)
    requires
        old(store).wf(),
    ensures
        final(store).wf(),
        final(store).apps() == old(store).apps(),
        final(store).categories() == old(store).categories(),
        match r {
            Ok(ids) => {
                &&& strings_view(ids@) == strings_view(page.app_ids@)
                &&& final(store).collections() == old(store).collections().insert(
                    name@,
                    crate::types::CollectionView {
                        category_id: name@,
                        app_ids: strings_view(page.app_ids@),
                        total_hits: page.total_hits,
                        cached_at,
                    },
                )
            },
            Err(e) => {
                &&& e == StoreError::DuplicateMember
                &&& !strings_view(page.app_ids@).no_duplicates()
                &&& final(store).collections() == old(store).collections()
            },
        },
{
    let ids = copy_strings(&page.app_ids, 0, page.app_ids.len());
    proof {
        assert(strings_view(page.app_ids@).subrange(0, page.app_ids@.len() as int)
            =~= strings_view(page.app_ids@));
    }
    let collection = CachedCategoryCollection {
        category_id: String::from_str(name),
        app_ids: page.app_ids,
        total_hits: page.total_hits,
        cached_at,
    };
    match store.replace_collection(collection) {
        Ok(()) => Ok(ids),
        Err(e) => Err(e),
    }
}

/// The stage that a progress event reports.
#[derive(Debug, Clone, Copy, PartialEq, Eq, Structural)]
pub enum Stage {
    FetchingApps,
    FetchingCollections,
    Complete,
    Error,
}

/// The two refresh workflows.
#[derive(Debug, Clone, Copy, PartialEq, Eq, Structural)]
pub enum RefreshMode {
    /// Triggered with a cache clear: everything is fetched and written anew.
    Full,
    /// Curated and category collections re-derived, recently updated apps
    /// diffed against the store.
    Incremental,
}

/// A structured progress notice for observers.
#[derive(Debug)]
pub struct ProgressEvent {
    pub stage: Stage,
    pub progress: u64,
    pub total: u64,
    pub message: String,
    pub details: Option<String>,
}

/// The message of the event that ends a refresh.
pub open spec fn complete_message(mode: RefreshMode, count: u64) -> Seq<char> {
    match mode {
        RefreshMode::Full => "Cache complete! Cached "@ + crate::text::decimal(count as nat) + " apps"@,
        RefreshMode::Incremental => "Cache updated! "@ + crate::text::decimal(count as nat) + " apps cached"@,
    }
}

/// The event that ends a refresh, reporting the number of apps stored.
pub fn complete_event(mode: RefreshMode, count: u64) -> (r: ProgressEvent)
    ensures
        r.stage == Stage::Complete,
        r.progress == count,
        r.total == count,
        r.message@ == complete_message(mode, count),
        r.details is None,
{
    let n = decimal_text(count);
    let message = match mode {
        RefreshMode::Full => {
            let mut m = String::from_str("Cache complete! Cached ");
            m.append(n.as_str());
            m.append(" apps");
            m
        },
        RefreshMode::Incremental => {
            let mut m = String::from_str("Cache updated! ");
            m.append(n.as_str());
            m.append(" apps cached");
            m
        },
    };
    ProgressEvent { stage: Stage::Complete, progress: count, total: count, message, details: None }
}

/// The message of the event that reports a failed refresh.
pub open spec fn error_message(mode: RefreshMode) -> Seq<char> {
    match mode {
        RefreshMode::Full => "Cache initialization failed"@,
        RefreshMode::Incremental => "Cache update failed"@,
    }
}

/// The event that reports a refresh that stopped on an error.
pub fn error_event(mode: RefreshMode, details: String) -> (r: ProgressEvent)
    ensures
        r.stage == Stage::Error,
        r.progress == 0,
        r.total == 0,
        r.message@ == error_message(mode),
        r.details is Some && r.details->0@ == details@,
{
    let message = match mode {
        RefreshMode::Full => String::from_str("Cache initialization failed"),
        RefreshMode::Incremental => String::from_str("Cache update failed"),
    };
    ProgressEvent { stage: Stage::Error, progress: 0, total: 0, message, details: Some(details) }
}

/// The event that opens the catalog-wide fetch.
pub fn apps_started_event() -> (r: ProgressEvent)
    ensures
        r.stage == Stage::FetchingApps,
        r.progress == 0,
        r.total == 0,
        r.message@ == "Starting to fetch apps..."@,
        r.details is None,
{
    ProgressEvent {
        stage: Stage::FetchingApps,
        progress: 0,
        total: 0,
        message: String::from_str("Starting to fetch apps..."),
        details: None,
    }
}

/// The event after each category collection, fetched or skipped.
pub fn collections_progress_event(processed: u64, total: u64) -> (r: ProgressEvent)
    ensures
        r.stage == Stage::FetchingCollections,
        r.progress == processed,
        r.total == total,
        r.message@ == "Fetched "@ + crate::text::decimal(processed as nat) + "/"@
            + crate::text::decimal(total as nat) + " collections"@,
        r.details is None,
{
    let mut m = String::from_str("Fetched ");
    let p = decimal_text(processed);
    m.append(p.as_str());
    m.append("/");
    let t = decimal_text(total);
    m.append(t.as_str());
    m.append(" collections");
    ProgressEvent { stage: Stage::FetchingCollections, progress: processed, total, message: m, details: None }
}

/// One step of a refresh workflow.
#[derive(Debug, Clone, Copy, PartialEq, Eq, Structural)]
pub enum RefreshStep {
    /// Delete every row of every table.
    ClearAll,
    /// Fetch and store curated collection `i` of `curated_collections`.
    FetchCurated(usize),
    /// Start, without waiting, the background app fetch: the whole catalog
    /// in a full refresh, the recently updated apps in an incremental one.
    LaunchBackground,
    /// Store the fixed category list.
    RefreshCategories,
    /// Fetch and store the collection of stored category `i`.
    FetchCategory(usize),
    /// Report completion with the number of apps stored.
    Complete,
}

/// The steps of a refresh, in order, with `n_categories` categories to
/// fetch: a full refresh clears the store first and stores the category
/// list before the category collections; both fetch the curated collections
/// first and end by reporting completion.
pub open spec fn refresh_plan_spec(mode: RefreshMode, n_categories: nat) -> Seq<RefreshStep> {
    let curated = Seq::new(3, |i: int| RefreshStep::FetchCurated(i as usize));
    let categories = Seq::new(n_categories, |i: int| RefreshStep::FetchCategory(i as usize));
    match mode {
        RefreshMode::Full => seq![RefreshStep::ClearAll] + curated + seq![
            RefreshStep::LaunchBackground,
            RefreshStep::RefreshCategories,
        ] + categories + seq![RefreshStep::Complete],
        RefreshMode::Incremental => curated + seq![RefreshStep::LaunchBackground] + categories + seq![
            RefreshStep::Complete,
        ],
    }
}

/// The steps of a refresh, in the order they run.
pub fn refresh_plan(mode: RefreshMode, n_categories: usize) -> (r: Vec<RefreshStep>)
    ensures
        r@ == refresh_plan_spec(mode, n_categories as nat),
{
    let mut r: Vec<RefreshStep> = Vec::new();
    if mode == RefreshMode::Full {
        r.push(RefreshStep::ClearAll);
    }
    let ghost head = r@;
    let mut i: usize = 0;
    while i < 3
        invariant
            i <= 3,
            r@ == head + Seq::new(i as nat, |k: int| RefreshStep::FetchCurated(k as usize)),
        decreases 3 - i,
    {
        r.push(RefreshStep::FetchCurated(i));
        assert(r@ =~= head + Seq::new((i + 1) as nat, |k: int| RefreshStep::FetchCurated(k as usize)));
        i = i + 1;
    }
    r.push(RefreshStep::LaunchBackground);
    if mode == RefreshMode::Full {
        r.push(RefreshStep::RefreshCategories);
    }
    let ghost middle = r@;
    let mut j: usize = 0;
    while j < n_categories
        invariant
            j <= n_categories,
            r@ == middle + Seq::new(j as nat, |k: int| RefreshStep::FetchCategory(k as usize)),
        decreases n_categories - j,
    {
        r.push(RefreshStep::FetchCategory(j));
        assert(r@ =~= middle + Seq::new((j + 1) as nat, |k: int| RefreshStep::FetchCategory(k as usize)));
        j = j + 1;
    }
    r.push(RefreshStep::Complete);
    assert(r@ =~= refresh_plan_spec(mode, n_categories as nat));
    r
}

/// The first step of a refresh: a full refresh deletes every row of every
/// table; an incremental one keeps the store.
pub fn begin_refresh(store: &mut CatalogStore, mode: RefreshMode)
    requires
        old(store).wf(),
    ensures
        final(store).wf(),
        mode == RefreshMode::Full ==> {
            &&& final(store).apps() == Map::<Seq<char>, AppView>::empty()
            &&& final(store).categories() == Map::<Seq<char>, CategoryView>::empty()
            &&& final(store).collections() == Map::<Seq<char>, crate::types::CollectionView>::empty()
        },
        mode == RefreshMode::Incremental ==> *final(store) == *old(store),
{
    match mode {
        RefreshMode::Full => store.clear_all(),
        RefreshMode::Incremental => {},
    }
}

/// `refresh_categories` stamped with the current time.
pub fn refresh_categories_now(store: &mut CatalogStore)
    requires
        old(store).wf(),
    ensures
        final(store).wf(),
        exists|t: i64| final(store).categories() == crate::store::category_table(static_category_views(t)),
        final(store).apps() == old(store).apps(),
        final(store).collections() == old(store).collections(),
{
    let t = unix_seconds();
    refresh_categories(store, t);
}

/// `apply_full_chunk` with the records stamped with the current time.
pub fn apply_full_chunk_now(store: &mut CatalogStore, results: &Vec<Option<JsonValue>>) -> (r: (Vec<String>, Vec<IconJob>))
    requires
        old(store).wf(),
    ensures
        final(store).wf(),
        exists|t: i64| {
            &&& final(store).apps() == upsert_all(old(store).apps(), #[trigger] parsed_apps(results@, t))
            &&& strings_view(r.0@) == ids_of(parsed_apps(results@, t))
            &&& jobs_view(r.1@) == icon_jobs_of(final(store).apps(), parsed_apps(results@, t))
        },
        final(store).categories() == old(store).categories(),
        final(store).collections() == old(store).collections(),
{
    let t = unix_seconds();
    let r = apply_full_chunk(store, results, t);
    assert(final(store).apps() == upsert_all(old(store).apps(), parsed_apps(results@, t)));
    r
}

/// `apply_incremental` with the records stamped with the current time.
pub fn apply_incremental_now(store: &mut CatalogStore, results: &Vec<Option<JsonValue>>) -> (r: (Vec<String>, Vec<IconJob>))
    requires
        old(store).wf(),
    ensures
        final(store).wf(),
        exists|t: i64| {
            let written = changed_apps(old(store).apps(), #[trigger] parsed_apps(results@, t));
            &&& final(store).apps() == upsert_all(old(store).apps(), written)
            &&& strings_view(r.0@) == ids_of(written)
            &&& jobs_view(r.1@) == icon_jobs_of(final(store).apps(), written)
        },
        final(store).categories() == old(store).categories(),
        final(store).collections() == old(store).collections(),
{
    let t = unix_seconds();
    let r = apply_incremental(store, results, t);
    assert(final(store).apps() == upsert_all(
        old(store).apps(),
        changed_apps(old(store).apps(), parsed_apps(results@, t)),
    ));
    r
}

/// `store_collection` stamped with the current time.
pub fn store_collection_now(store: &mut CatalogStore, name: &str, page: CollectionPage) -> (r: Result<Vec<String>, StoreError>)
    requires
        old(store).wf(),
    ensures
        final(store).wf(),
        final(store).apps() == old(store).apps(),
        final(store).categories() == old(store).categories(),
        match r {
            Ok(ids) => {
                &&& strings_view(ids@) == strings_view(page.app_ids@)
                &&& final(store).collections().contains_key(name@)
                &&& final(store).collections()[name@].app_ids == strings_view(page.app_ids@)
                &&& final(store).collections()[name@].total_hits == page.total_hits
                &&& final(store).collections().remove(name@) == old(store).collections().remove(name@)
            },
            Err(e) => {
                &&& e == StoreError::DuplicateMember
                &&& !strings_view(page.app_ids@).no_duplicates()
                &&& final(store).collections() == old(store).collections()
            },
        },
{
    let t = unix_seconds();
    let r = store_collection(store, name, page, t);
    proof {
        if r is Ok {
            assert(final(store).collections().remove(name@) =~= old(store).collections().remove(name@));
        }
    }
    r
}

/// Change detection: a fresh record with the same content as the stored one
/// is not written, so the stored row stays untouched and no icon is fetched
/// for it; one whose description differs is written over the stored row.
pub proof fn law_change_detection(m: Map<Seq<char>, AppView>, fresh: AppView)
    requires
        m.contains_key(fresh.app_id),
    ensures
        same_content(m[fresh.app_id], fresh) ==> {
            &&& changed_apps(m, seq![fresh]) == Seq::<AppView>::empty()
            &&& upsert_all(m, changed_apps(m, seq![fresh])) == m
            &&& icon_jobs_of(m, changed_apps(m, seq![fresh])) == Seq::<(Seq<char>, Seq<char>)>::empty()
        },
        m[fresh.app_id].description != fresh.description ==> {
            &&& changed_apps(m, seq![fresh]) == seq![fresh]
            &&& upsert_all(m, changed_apps(m, seq![fresh]))[fresh.app_id] == fresh
        },
{
    let one = seq![fresh];
    assert(one.drop_last() =~= Seq::<AppView>::empty());
    assert(one.last() == fresh);
    assert(changed_apps(m, one.drop_last()) =~= Seq::<AppView>::empty());
    if same_content(m[fresh.app_id], fresh) {
        assert(changed_apps(m, one) =~= Seq::<AppView>::empty());
    }
    if m[fresh.app_id].description != fresh.description {
        assert(changed_apps(m, one) =~= seq![fresh]);
        let w = seq![fresh];
        assert(w.drop_last() =~= Seq::<AppView>::empty());
    }
}

/// Change detection over any list of fetched records: a record that is new
/// or whose content differs from the stored row, and that is the last one
/// fetched for its identifier, is exactly what the store holds for it after
/// the incremental write.
pub proof fn law_incremental_writes_changed(m: Map<Seq<char>, AppView>, fresh: Seq<AppView>, i: int)
    requires
        0 <= i < fresh.len(),
        needs_write(m, fresh[i]),
        forall|j: int| i < j < fresh.len() ==> fresh[j].app_id != fresh[i].app_id,
    ensures
        upsert_all(m, changed_apps(m, fresh)).contains_key(fresh[i].app_id),
        upsert_all(m, changed_apps(m, fresh))[fresh[i].app_id] == fresh[i],
    decreases fresh.len(),
{
    let w = changed_apps(m, fresh);
    let rest = changed_apps(m, fresh.drop_last());
    if i == fresh.len() - 1 {
        assert(w == rest.push(fresh[i]));
        assert(w.drop_last() =~= rest);
    } else {
        assert(fresh.drop_last()[i] == fresh[i]);
        law_incremental_writes_changed(m, fresh.drop_last(), i);
        if needs_write(m, fresh.last()) {
            assert(w.drop_last() =~= rest);
            assert(w.last() == fresh.last());
        }
    }
}

/// An icon job names only identifiers of the written records.
proof fn lemma_jobs_avoid(m: Map<Seq<char>, AppView>, written: Seq<AppView>, k: Seq<char>)
    requires
        forall|j: int| 0 <= j < written.len() ==> written[j].app_id != k,
    ensures
        forall|j: int| 0 <= j < icon_jobs_of(m, written).len() ==> (#[trigger] icon_jobs_of(m, written)[j]).0 != k,
    decreases written.len(),
{
    if written.len() > 0 {
        let prev_w = written.drop_last();
        assert forall|j: int| 0 <= j < prev_w.len() implies prev_w[j].app_id != k by {
            assert(prev_w[j] == written[j]);
        }
        lemma_jobs_avoid(m, prev_w, k);
        let jobs = icon_jobs_of(m, written);
        let prev = icon_jobs_of(m, prev_w);
        assert(written.last() == written[written.len() - 1]);
        assert forall|j: int| 0 <= j < jobs.len() implies (#[trigger] jobs[j]).0 != k by {
            if j < prev.len() {
                assert(jobs[j] == prev[j]);
            }
        }
    }
}

/// Change detection over any list of fetched records: where every record
/// fetched for a stored identifier has the same content as its stored row,
/// the incremental write leaves that row as it was, in every column, writes
/// no record for it and downloads no icon for it.
pub proof fn law_incremental_keeps_unchanged(
    m: Map<Seq<char>, AppView>,
    fresh: Seq<AppView>,
    k: Seq<char>,
    after: Map<Seq<char>, AppView>,
)
    requires
        m.contains_key(k),
        forall|j: int| 0 <= j < fresh.len() && (#[trigger] fresh[j]).app_id == k ==> same_content(m[k], fresh[j]),
    ensures
        upsert_all(m, changed_apps(m, fresh)).contains_key(k),
        upsert_all(m, changed_apps(m, fresh))[k] == m[k],
        forall|j: int| 0 <= j < changed_apps(m, fresh).len() ==> (#[trigger] changed_apps(m, fresh)[j]).app_id != k,
        forall|j: int| 0 <= j < icon_jobs_of(after, changed_apps(m, fresh)).len()
            ==> (#[trigger] icon_jobs_of(after, changed_apps(m, fresh))[j]).0 != k,
    decreases fresh.len(),
{
    let w = changed_apps(m, fresh);
    if fresh.len() > 0 {
        let rest = changed_apps(m, fresh.drop_last());
        assert forall|j: int| 0 <= j < fresh.drop_last().len() && (#[trigger] fresh.drop_last()[j]).app_id == k
            implies same_content(m[k], fresh.drop_last()[j]) by {
            assert(fresh.drop_last()[j] == fresh[j]);
        }
        law_incremental_keeps_unchanged(m, fresh.drop_last(), k, after);
        if needs_write(m, fresh.last()) {
            assert(fresh.last() == fresh[fresh.len() - 1]);
            assert(fresh.last().app_id != k);
            assert(w.drop_last() =~= rest);
            assert forall|j: int| 0 <= j < w.len() implies (#[trigger] w[j]).app_id != k by {
                if j < rest.len() {
                    assert(w[j] == rest[j]);
                }
            }
        }
    }
    lemma_jobs_avoid(after, w, k);
}

proof fn lemma_upsert_dom(m: Map<Seq<char>, AppView>, batch: Seq<AppView>)
    ensures
        upsert_all(m, batch).dom() == m.dom() + ids_of(batch).to_set(),
    decreases batch.len(),
{
    if batch.len() > 0 {
        lemma_upsert_dom(m, batch.drop_last());
        assert(ids_of(batch.drop_last()) =~= ids_of(batch).drop_last());
        assert forall|k: Seq<char>| ids_of(batch).to_set().contains(k)
            <==> (ids_of(batch.drop_last()).to_set().contains(k) || k == batch.last().app_id) by {
            if ids_of(batch).contains(k) {
                let j = choose|j: int| 0 <= j < ids_of(batch).len() && ids_of(batch)[j] == k;
                if j < batch.len() - 1 {
                    assert(ids_of(batch.drop_last())[j] == k);
                }
            }
            if ids_of(batch.drop_last()).contains(k) {
                let j = choose|j: int| 0 <= j < ids_of(batch.drop_last()).len() && ids_of(batch.drop_last())[j] == k;
                assert(ids_of(batch)[j] == k);
            }
            if k == batch.last().app_id {
                assert(ids_of(batch)[batch.len() - 1] == k);
            }
        }
        assert(upsert_all(m, batch).dom() =~= m.dom() + ids_of(batch).to_set());
    } else {
        assert(upsert_all(m, batch).dom() =~= m.dom() + ids_of(batch).to_set());
    }
}

proof fn lemma_category_dom(cats: Seq<CategoryView>)
    ensures
        crate::store::category_table(cats).dom() == cats.map_values(|c: CategoryView| c.id).to_set(),
    decreases cats.len(),
{
    let ids = cats.map_values(|c: CategoryView| c.id);
    if cats.len() > 0 {
        let prev = cats.drop_last().map_values(|c: CategoryView| c.id);
        lemma_category_dom(cats.drop_last());
        assert(prev =~= ids.drop_last());
        assert forall|k: Seq<char>| ids.to_set().contains(k) <==> (prev.to_set().contains(k) || k == cats.last().id) by {
            if ids.contains(k) {
                let j = choose|j: int| 0 <= j < ids.len() && ids[j] == k;
                if j < cats.len() - 1 {
                    assert(prev[j] == k);
                }
            }
            if prev.contains(k) {
                let j = choose|j: int| 0 <= j < prev.len() && prev[j] == k;
                assert(ids[j] == k);
            }
            if k == cats.last().id {
                assert(ids[cats.len() - 1] == k);
            }
        }
    }
    assert(crate::store::category_table(cats).dom() =~= ids.to_set());
}

/// A full refresh starting from the cleared store: when the catalog fetch
/// parses records with distinct identifiers, the apps table ends with exactly
/// one row per record, so the completion event (whose progress and total are
/// the app count) reports their number; and the categories table holds
/// exactly the ten fixed codes.
pub proof fn law_full_refresh_counts(results: Seq<Option<JsonValue>>, t_apps: i64, t_categories: i64)
    requires
        ids_of(parsed_apps(results, t_apps)).no_duplicates(),
    ensures
        upsert_all(Map::empty(), parsed_apps(results, t_apps)).dom() == ids_of(parsed_apps(results, t_apps)).to_set(),
        upsert_all(Map::empty(), parsed_apps(results, t_apps)).dom().len() == parsed_apps(results, t_apps).len(),
        crate::store::category_table(static_category_views(t_categories)).dom() == category_codes().to_set(),
        crate::store::category_table(static_category_views(t_categories)).dom().len() == 10,
{
    let parsed = parsed_apps(results, t_apps);
    lemma_upsert_dom(Map::empty(), parsed);
    assert(upsert_all(Map::empty(), parsed).dom() =~= ids_of(parsed).to_set());
    ids_of(parsed).unique_seq_to_set();
    let cats = static_category_views(t_categories);
    lemma_category_dom(cats);
    assert(cats.map_values(|c: CategoryView| c.id) =~= category_codes());
    reveal_strlit("AudioVideo");
    reveal_strlit("Development");
    reveal_strlit("Education");
    reveal_strlit("Game");
    reveal_strlit("Graphics");
    reveal_strlit("Network");
    reveal_strlit("Office");
    reveal_strlit("Science");
    reveal_strlit("System");
    reveal_strlit("Utility");
    let codes = category_codes();
    assert forall|i: int, j: int| 0 <= i < codes.len() && 0 <= j < codes.len() && i != j
        implies codes[i] != codes[j] by {
        if codes[i] == codes[j] {
            assert(codes[i].len() == codes[j].len());
            assert(codes[i][0] == codes[j][0]);
        }
    }
    assert(codes.no_duplicates());
    category_codes().unique_seq_to_set();
}

} // verus!
