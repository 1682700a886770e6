use vstd::prelude::*;
use crate::json::{JsonValue, field, first_text, first_items, as_text, as_count, keys_view};
use crate::types::{AppView, CachedApp};

verus! {

/// Why a catalog operation failed.
#[derive(Debug, Clone, Copy, PartialEq, Eq, Structural)]
pub enum CatalogError {
    /// The remote answered with a status outside 2xx.
    Transport(u16),
    /// The body was not JSON.
    MalformedBody,
    /// An app record names no identifier under any of its aliases.
    MissingAppId,
    /// A collection response holds no member array.
    MissingMembers,
    /// A curated collection name outside the known three.
    UnknownCollection,
}

/// The aliases of an app identifier in a detail record, in priority order.
pub open spec fn app_id_keys() -> Seq<Seq<char>> {
    seq!["app_id"@, "id"@, "flatpakAppId"@]
}

/// The aliases of the icon URL in a detail record, in priority order.
pub open spec fn icon_url_keys() -> Seq<Seq<char>> {
    seq!["iconDesktopUrl"@, "icon"@]
}

/// The aliases of an app identifier in a collection member.
pub open spec fn member_id_keys() -> Seq<Seq<char>> {
    seq!["app_id"@, "flatpakAppId"@]
}

fn app_id_key_list() -> (r: Vec<&'static str>)
    ensures
        keys_view(r@) == app_id_keys(),
{
    let r = vec!["app_id", "id", "flatpakAppId"];
    assert(keys_view(r@) =~= app_id_keys());
    r
}

fn icon_url_key_list() -> (r: Vec<&'static str>)
    ensures
        keys_view(r@) == icon_url_keys(),
{
    let r = vec!["iconDesktopUrl", "icon"];
    assert(keys_view(r@) =~= icon_url_keys());
    r
}

fn member_id_key_list() -> (r: Vec<&'static str>)
    ensures
        keys_view(r@) == member_id_keys(),
{
    let r = vec!["app_id", "flatpakAppId"];
    assert(keys_view(r@) =~= member_id_keys());
    r
}

/// The record that a detail document describes, stamped with `cached_at`;
/// nothing where no identifier alias holds a string.
pub open spec fn app_from_json(json: JsonValue, cached_at: i64) -> Option<AppView> {
    match first_text(json, app_id_keys()) {
        Some(id) => Some(AppView {
            app_id: id,
            name: as_text(field(json, "name"@)),
            description: as_text(field(json, "description"@)),
            summary: as_text(field(json, "summary"@)),
            download_flatpak_ref: Some(id),
            icon_url: first_text(json, icon_url_keys()),
            icon_path: None,
            icon_data: None,
            cached_at,
        }),
        None => None,
    }
}

/// The text under `key`, copied out.
fn text_field(json: &JsonValue, key: &str) -> (r: Option<String>)
    ensures
        crate::text::opt_view(r) == as_text(field(*json, key@)),
{
    match json.get(key) {
        Some(v) => match v.as_str() {
            Some(s) => Some(s.clone()),
            None => None,
        },
        None => None,
    }
}

/// The text under the first of `keys` whose value is a string, copied out.
fn first_text_field(json: &JsonValue, keys: &Vec<&str>) -> (r: Option<String>)
    ensures
        crate::text::opt_view(r) == first_text(*json, keys_view(keys@)),
{
    match json.get_first_text(keys) {
        Some(s) => Some(s.clone()),
        None => None,
    }
}

/// Reads one app detail document into a record stamped with `cached_at`.
pub fn parse_app_from_json(json: &JsonValue, cached_at: i64) -> (r: Result<CachedApp, CatalogError>)
    ensures
        match r {
            Ok(app) => app_from_json(*json, cached_at) == Some(app@),
            Err(e) => app_from_json(*json, cached_at) is None && e == CatalogError::MissingAppId,
        },
{
    let app_id = match first_text_field(json, &app_id_key_list()) {
        Some(id) => id,
        None => return Err(CatalogError::MissingAppId),
    };
    let name = text_field(json, "name");
    let summary = text_field(json, "summary");
    let description = text_field(json, "description");
    let download_flatpak_ref = Some(app_id.clone());
    let icon_url = first_text_field(json, &icon_url_key_list());
    Ok(CachedApp {
        app_id,
        name,
        description,
        summary,
        download_flatpak_ref,
        icon_url,
        icon_path: None,
        icon_data: None,
        cached_at,
    })
}

/// The identifier that a collection member names, if any.
pub open spec fn member_id(item: JsonValue) -> Option<Seq<char>> {
    first_text(item, member_id_keys())
}

/// The identifiers of the members that name one, in order.
pub open spec fn member_ids(items: Seq<JsonValue>) -> Seq<Seq<char>>
    decreases items.len(),
{
    if items.len() == 0 {
        Seq::empty()
    } else {
        let rest = member_ids(items.drop_last());
        match member_id(items.last()) {
            Some(id) => rest.push(id),
            None => rest,
        }
    }
}

pub open spec fn ids_view(ids: Seq<String>) -> Seq<Seq<char>> {
    ids.map_values(|s: String| s@)
}

/// What a collection document gives: its members in order and the total
/// number of hits that the remote reports.
#[derive(Debug)]
pub struct CollectionPage {
    pub app_ids: Vec<String>,
    pub total_hits: usize,
}

/// Which endpoint a collection comes from.
#[derive(Debug, Clone, Copy, PartialEq, Eq, Structural)]
pub enum CollectionKind {
    /// One of `popular`, `trending`, `recently-updated`: members under `hits`.
    Curated,
    /// A topical category: members under `hits`, or else under `apps`,
    /// whichever is first an array.
    Category,
}

/// The member array of a collection document.
pub open spec fn members_of(json: JsonValue, kind: CollectionKind) -> Option<Seq<JsonValue>> {
    match kind {
        CollectionKind::Curated => first_items(json, seq!["hits"@]),
        CollectionKind::Category => first_items(json, seq!["hits"@, "apps"@]),
    }
}

/// The total that a collection document reports: `totalHits` where it is a
/// non-negative integer, else the number of members read.
pub open spec fn reported_total(json: JsonValue, n_ids: nat) -> usize {
    match as_count(field(json, "totalHits"@)) {
        Some(t) => t as usize,
        None => n_ids as usize,
    }
}

fn member_array_keys(kind: CollectionKind) -> (r: Vec<&'static str>)
    ensures
        kind == CollectionKind::Category ==> keys_view(r@) == seq!["hits"@, "apps"@],
        kind == CollectionKind::Curated ==> keys_view(r@) == seq!["hits"@],
{
    match kind {
        CollectionKind::Curated => {
            let r = vec!["hits"];
            assert(keys_view(r@) =~= seq!["hits"@]);
            r
        },
        CollectionKind::Category => {
            let r = vec!["hits", "apps"];
            assert(keys_view(r@) =~= seq!["hits"@, "apps"@]);
            r
        },
    }
}

/// Reads a collection document: the member identifiers in order, skipping
/// members that name none, and the reported total.
pub fn parse_collection(json: &JsonValue, kind: CollectionKind) -> (r: Result<CollectionPage, CatalogError>)
    ensures
        match r {
            Ok(page) => {
                &&& members_of(*json, kind) is Some
                &&& ids_view(page.app_ids@) == member_ids(members_of(*json, kind)->0)
                &&& page.total_hits == reported_total(*json, page.app_ids@.len())
            },
            Err(e) => members_of(*json, kind) is None && e == CatalogError::MissingMembers,
        },
{
    let keys = member_array_keys(kind);
    let items = match json.get_first_array(&keys) {
        Some(items) => items,
        None => return Err(CatalogError::MissingMembers),
    };
    let id_keys = member_id_key_list();
    let mut ids: Vec<String> = Vec::new();
    let n = items.len();
    let mut i: usize = 0;
    while i < n
        invariant
            n == items@.len(),
            i <= n,
            keys_view(id_keys@) == member_id_keys(),
            ids_view(ids@) == member_ids(items@.take(i as int)),
        decreases n - i,
    {
        assert(items@.take(i + 1).drop_last() =~= items@.take(i as int));
        let id = first_text_field(&items[i], &id_keys);
        match id {
            Some(s) => {
                ids.push(s);
            },
            None => {},
        }
        assert(ids_view(ids@) =~= member_ids(items@.take(i + 1)));
        i = i + 1;
    }
    assert(items@.take(n as int) =~= items@);
    let total_hits = match json.get("totalHits") {
        Some(JsonValue::Number(Some(t))) => #[verifier::truncate] (*t as usize),
        _ => ids.len(),
    };
    Ok(CollectionPage { app_ids: ids, total_hits })
}

/// Whether every item is a string.
pub open spec fn all_text(items: Seq<JsonValue>) -> bool {
    forall|i: int| 0 <= i < items.len() ==> (#[trigger] items[i]) is Str
}

/// Reads the catalog's identifier list: a JSON array of strings.
pub fn parse_app_id_list(json: &JsonValue) -> (r: Result<Vec<String>, CatalogError>)
    ensures
        match r {
            Ok(ids) => match *json {
                JsonValue::Array(items) => {
                    &&& all_text(items@)
                    &&& ids@.len() == items@.len()
                    &&& forall|i: int| 0 <= i < items@.len()
                        ==> as_text(Some(#[trigger] items@[i])) == Some(ids@[i]@)
                },
                _ => false,
            },
            Err(e) => e == CatalogError::MalformedBody && !(match *json {
                JsonValue::Array(items) => all_text(items@),
                _ => false,
            }),
        },
{
    let items = match json {
        JsonValue::Array(items) => items,
        _ => return Err(CatalogError::MalformedBody),
    };
    let mut ids: Vec<String> = Vec::new();
    let n = items.len();
    let mut i: usize = 0;
    while i < n
        invariant
            n == items@.len(),
            *json == JsonValue::Array(*items),
            i <= n,
            ids@.len() == i,
            forall|k: int| 0 <= k < i ==> (#[trigger] items@[k]) is Str,
            forall|k: int| 0 <= k < i ==> as_text(Some(#[trigger] items@[k])) == Some(ids@[k]@),
        decreases n - i,
    {
        match &items[i] {
            JsonValue::Str(s) => {
                ids.push(s.clone());
            },
            _ => {
                assert(!(items@[i as int] is Str));
                return Err(CatalogError::MalformedBody);
            },
        }
        i = i + 1;
    }
    Ok(ids)
}

/// What to do with one answer of a collection endpoint.
#[derive(Debug)]
pub enum CollectionResponse {
    /// The server failed with 500: ask again after the backoff.
    RetryLater,
    /// The collection does not exist: an empty list, not an error.
    Absent,
    /// The collection as read from the body.
    Page(CollectionPage),
    /// The fetch failed.
    Failed(CatalogError),
}

/// Decides on one answer of a collection endpoint, given its status and its
/// body where that was JSON.
pub fn collection_response(kind: CollectionKind, status: u16, body: Option<&JsonValue>) -> (r: CollectionResponse)
    ensures
        status == 500 ==> r is RetryLater,
        status == 404 ==> r is Absent,
        status != 500 && status != 404 && !(200 <= status < 300)
            ==> r == CollectionResponse::Failed(CatalogError::Transport(status)),
        200 <= status < 300 ==> match body {
            None => r == CollectionResponse::Failed(CatalogError::MalformedBody),
            Some(j) => match r {
                CollectionResponse::Page(page) => {
                    &&& members_of(*j, kind) is Some
                    &&& ids_view(page.app_ids@) == member_ids(members_of(*j, kind)->0)
                    &&& page.total_hits == reported_total(*j, page.app_ids@.len())
                },
                CollectionResponse::Failed(e) => members_of(*j, kind) is None
                    && e == CatalogError::MissingMembers,
                _ => false,
            },
        },
{
    if status == 500 {
        CollectionResponse::RetryLater
    } else if status == 404 {
        CollectionResponse::Absent
    } else if status < 200 || status >= 300 {
        CollectionResponse::Failed(CatalogError::Transport(status))
    } else {
        match body {
            None => CollectionResponse::Failed(CatalogError::MalformedBody),
            Some(j) => match parse_collection(j, kind) {
                Ok(page) => CollectionResponse::Page(page),
                Err(e) => CollectionResponse::Failed(e),
            },
        }
    }
}

/// How often a collection fetch asks again after a 500.
#[derive(Debug, Clone, Copy, PartialEq, Eq, Structural)]
pub struct RetryPolicy {
    /// The most attempts in all; no limit where absent.
    pub max_attempts: Option<u32>,
}

impl RetryPolicy {
    /// Retries for as long as the server answers 500.
    pub fn unlimited() -> (r: RetryPolicy)
        ensures
            r.max_attempts is None,
    {
        RetryPolicy { max_attempts: None }
    }

    /// Whether another attempt may follow `attempts_made` attempts.
    pub fn allows_retry(&self, attempts_made: u32) -> (r: bool)
        ensures
            r == match self.max_attempts {
                Some(m) => attempts_made < m,
                None => true,
            },
    {
        match self.max_attempts {
            Some(m) => attempts_made < m,
            None => true,
        }
    }
}

} // verus!
