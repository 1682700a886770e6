use vstd::prelude::*;
use crate::text::{opt_view, opt_str_eq, clone_opt};

verus! {

/// One application record of the catalog, as the local store keeps it.
#[derive(Debug, Clone)]
pub struct CachedApp {
    pub app_id: String,
    pub name: Option<String>,
    pub description: Option<String>,
    pub summary: Option<String>,
    pub download_flatpak_ref: Option<String>,
    pub icon_url: Option<String>,
    pub icon_path: Option<String>,
    pub icon_data: Option<Vec<u8>>,
    pub cached_at: i64,
}

/// The contents of a `CachedApp`.
pub struct AppView {
    pub app_id: Seq<char>,
    pub name: Option<Seq<char>>,
    pub description: Option<Seq<char>>,
    pub summary: Option<Seq<char>>,
    pub download_flatpak_ref: Option<Seq<char>>,
    pub icon_url: Option<Seq<char>>,
    pub icon_path: Option<Seq<char>>,
    pub icon_data: Option<Seq<u8>>,
    pub cached_at: i64,
}

pub open spec fn blob_view(o: Option<Vec<u8>>) -> Option<Seq<u8>> {
    match o {
        Some(b) => Some(b@),
        None => None,
    }
}

impl View for CachedApp {
    type V = AppView;

    open spec fn view(&self) -> AppView {
        AppView {
            app_id: self.app_id@,
            name: opt_view(self.name),
            description: opt_view(self.description),
            summary: opt_view(self.summary),
            download_flatpak_ref: opt_view(self.download_flatpak_ref),
            icon_url: opt_view(self.icon_url),
            icon_path: opt_view(self.icon_path),
            icon_data: blob_view(self.icon_data),
            cached_at: self.cached_at,
        }
    }
}

/// Two records carry the same content: name, summary, description, install
/// reference and icon URL agree.  Identity, timestamps and icon bytes are not
/// content.
pub open spec fn same_content(a: AppView, b: AppView) -> bool {
    &&& a.name == b.name
    &&& a.summary == b.summary
    &&& a.description == b.description
    &&& a.download_flatpak_ref == b.download_flatpak_ref
    &&& a.icon_url == b.icon_url
}

/// Whether a freshly fetched record differs in content from the stored one.
pub fn has_app_changed(existing: &CachedApp, new: &CachedApp) -> (r: bool)
    ensures
        r == !same_content(existing@, new@),
{
    !opt_str_eq(&existing.name, &new.name)
        || !opt_str_eq(&existing.summary, &new.summary)
        || !opt_str_eq(&existing.description, &new.description)
        || !opt_str_eq(&existing.download_flatpak_ref, &new.download_flatpak_ref)
        || !opt_str_eq(&existing.icon_url, &new.icon_url)
}

/// A copy of an optional byte blob.
pub fn clone_blob(o: &Option<Vec<u8>>) -> (r: Option<Vec<u8>>)
    ensures
        blob_view(r) == blob_view(*o),
{
    match o {
        Some(b) => Some(b.clone()),
        None => None,
    }
}

impl CachedApp {
    /// A field-for-field copy of the record.
    pub fn duplicate(&self) -> (r: CachedApp)
        ensures
            r@ == self@,
    {
        CachedApp {
            app_id: self.app_id.clone(),
            name: clone_opt(&self.name),
            description: clone_opt(&self.description),
            summary: clone_opt(&self.summary),
            download_flatpak_ref: clone_opt(&self.download_flatpak_ref),
            icon_url: clone_opt(&self.icon_url),
            icon_path: clone_opt(&self.icon_path),
            icon_data: clone_blob(&self.icon_data),
            cached_at: self.cached_at,
        }
    }
}

/// A topical category of the catalog.
#[derive(Debug, Clone)]
pub struct CachedCategory {
    pub id: String,
    pub name: String,
    pub cached_at: i64,
}

/// A category or curated collection with its members in display order.
#[derive(Debug, Clone)]
pub struct CachedCategoryCollection {
    pub category_id: String,
    pub app_ids: Vec<String>,
    pub total_hits: usize,
    pub cached_at: i64,
}

/// The contents of a `CachedCategory`.
pub struct CategoryView {
    pub id: Seq<char>,
    pub name: Seq<char>,
    pub cached_at: i64,
}

impl View for CachedCategory {
    type V = CategoryView;

    open spec fn view(&self) -> CategoryView {
        CategoryView { id: self.id@, name: self.name@, cached_at: self.cached_at }
    }
}

impl CachedCategory {
    /// A field-for-field copy of the record.
    pub fn duplicate(&self) -> (r: CachedCategory)
        ensures
            r@ == self@,
    {
        CachedCategory { id: self.id.clone(), name: self.name.clone(), cached_at: self.cached_at }
    }
}

/// The contents of a `CachedCategoryCollection`: the member at index `i` of
/// `app_ids` has position `i`.
pub struct CollectionView {
    pub category_id: Seq<char>,
    pub app_ids: Seq<Seq<char>>,
    pub total_hits: usize,
    pub cached_at: i64,
}

pub open spec fn strings_view(v: Seq<String>) -> Seq<Seq<char>> {
    v.map_values(|s: String| s@)
}

impl View for CachedCategoryCollection {
    type V = CollectionView;

    open spec fn view(&self) -> CollectionView {
        CollectionView {
            category_id: self.category_id@,
            app_ids: strings_view(self.app_ids@),
            total_hits: self.total_hits,
            cached_at: self.cached_at,
        }
    }
}

/// A copy of the strings of `v` from index `start` to index `end`.
pub fn copy_strings(v: &Vec<String>, start: usize, end: usize) -> (r: Vec<String>)
    requires
        start <= end <= v@.len(),
    ensures
        strings_view(r@) == strings_view(v@).subrange(start as int, end as int),
{
    let mut r: Vec<String> = Vec::new();
    let mut i: usize = start;
    while i < end
        invariant
            start <= i <= end <= v@.len(),
            strings_view(r@) == strings_view(v@).subrange(start as int, i as int),
        decreases end - i,
    {
        let s = v[i].clone();
        let ghost prev = r@;
        r.push(s);
        assert(r@ == prev.push(s));
        assert(strings_view(r@) =~= strings_view(prev).push(s@));
        assert(strings_view(r@) =~= strings_view(v@).subrange(start as int, i + 1));
        i = i + 1;
    }
    r
}

impl CachedCategoryCollection {
    /// A field-for-field copy of the record.
    pub fn duplicate(&self) -> (r: CachedCategoryCollection)
        ensures
            r@ == self@,
    {
        let ids = copy_strings(&self.app_ids, 0, self.app_ids.len());
        proof {
            assert(strings_view(self.app_ids@).subrange(0, self.app_ids@.len() as int)
                =~= strings_view(self.app_ids@));
        }
        CachedCategoryCollection {
            category_id: self.category_id.clone(),
            app_ids: ids,
            total_hits: self.total_hits,
            cached_at: self.cached_at,
        }
    }
}

/// The read-only projection of a record that search produces.
#[derive(Debug, Clone)]
pub struct SearchResult {
    pub app_id: String,
    pub name: Option<String>,
    pub summary: Option<String>,
    pub icon_url: Option<String>,
    pub icon_path: Option<String>,
}

/// The contents of a `SearchResult`.
pub struct SearchView {
    pub app_id: Seq<char>,
    pub name: Option<Seq<char>>,
    pub summary: Option<Seq<char>>,
    pub icon_url: Option<Seq<char>>,
    pub icon_path: Option<Seq<char>>,
}

impl View for SearchResult {
    type V = SearchView;

    open spec fn view(&self) -> SearchView {
        SearchView {
            app_id: self.app_id@,
            name: opt_view(self.name),
            summary: opt_view(self.summary),
            icon_url: opt_view(self.icon_url),
            icon_path: opt_view(self.icon_path),
        }
    }
}

/// The search projection of a record.
pub open spec fn search_view(a: AppView) -> SearchView {
    SearchView {
        app_id: a.app_id,
        name: a.name,
        summary: a.summary,
        icon_url: a.icon_url,
        icon_path: a.icon_path,
    }
}

impl SearchResult {
    /// The search projection of a record.
    pub fn of_app(a: &CachedApp) -> (r: SearchResult)
        ensures
            r@ == search_view(a@),
    {
        SearchResult {
            app_id: a.app_id.clone(),
            name: clone_opt(&a.name),
            summary: clone_opt(&a.summary),
            icon_url: clone_opt(&a.icon_url),
            icon_path: clone_opt(&a.icon_path),
        }
    }
}

} // verus!
