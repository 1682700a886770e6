use vstd::prelude::*;
use crate::table::Table;
use crate::types::{
    AppView, CachedApp, CachedCategory, CachedCategoryCollection, CategoryView, CollectionView,
    blob_view, strings_view, copy_strings,
};
use crate::text::{
    clone_opt, str_eq, chars_of, opt_contains_ignoring_case, opt_contains_folded, codes, lex_le,
    lex_lt, text_lt, lemma_lex_total,
};
use crate::types::{SearchResult, SearchView, search_view};
use crate::icons::{icon_data_url, data_url, sniff};
use crate::remote::CatalogError;

verus! {

/// Why a store update was refused.
#[derive(Debug, Clone, Copy, PartialEq, Eq, Structural)]
pub enum StoreError {
    /// A collection lists the same app twice; the store keeps one membership
    /// per (collection, app).
    DuplicateMember,
}

/// Which optional columns a read carries over.
#[derive(Debug, Clone, Copy, PartialEq, Eq, Structural)]
pub enum Projection {
    /// No description, no icon bytes, timestamp zero.
    Minimal,
    /// Icon bytes, no description, timestamp zero.
    WithIcon,
    /// Description and icon bytes, timestamp zero.
    WithDescription,
    /// Every column.
    Full,
}

/// A record as a read with projection `p` returns it.
pub open spec fn project(a: AppView, p: Projection) -> AppView {
    AppView {
        description: if p == Projection::WithDescription || p == Projection::Full {
            a.description
        } else {
            None
        },
        icon_data: if p == Projection::Minimal { None } else { a.icon_data },
        cached_at: if p == Projection::Full { a.cached_at } else { 0 },
        ..a
    }
}

/// The apps table after writing `batch` in order, each record replacing any
/// earlier one with its identifier.
pub open spec fn upsert_all(m: Map<Seq<char>, AppView>, batch: Seq<AppView>) -> Map<Seq<char>, AppView>
    decreases batch.len(),
{
    if batch.len() == 0 {
        m
    } else {
        upsert_all(m, batch.drop_last()).insert(batch.last().app_id, batch.last())
    }
}

/// The categories table after writing `cats` in order.
pub open spec fn category_table(cats: Seq<CategoryView>) -> Map<Seq<char>, CategoryView>
    decreases cats.len(),
{
    if cats.len() == 0 {
        Map::empty()
    } else {
        category_table(cats.drop_last()).insert(cats.last().id, cats.last())
    }
}

/// The records stored under `ids`, in the order in which `ids` first names
/// them, each once, projected by `p`; identifiers with no record are skipped.
pub open spec fn lookup_batch(m: Map<Seq<char>, AppView>, ids: Seq<Seq<char>>, p: Projection) -> Seq<AppView>
    decreases ids.len(),
{
    if ids.len() == 0 {
        Seq::empty()
    } else {
        let rest = lookup_batch(m, ids.drop_last(), p);
        if m.contains_key(ids.last()) && !ids.drop_last().contains(ids.last()) {
            rest.push(project(m[ids.last()], p))
        } else {
            rest
        }
    }
}

pub open spec fn app_views(s: Seq<CachedApp>) -> Seq<AppView> {
    s.map_values(|a: CachedApp| a@)
}

/// The record with its icon bytes replaced and nothing else changed.
pub open spec fn with_icon(a: AppView, bytes: Seq<u8>) -> AppView {
    AppView { icon_data: Some(bytes), ..a }
}

pub open spec fn category_views(s: Seq<CachedCategory>) -> Seq<CategoryView> {
    s.map_values(|c: CachedCategory| c@)
}

/// The members of collection `id`, in position order; none where it is absent.
pub open spec fn members_of(c: Map<Seq<char>, CollectionView>, id: Seq<char>) -> Seq<Seq<char>> {
    if c.contains_key(id) {
        c[id].app_ids
    } else {
        Seq::empty()
    }
}

pub open spec fn min(a: int, b: int) -> int {
    if a < b {
        a
    } else {
        b
    }
}

/// The members at positions `offset` up to `offset + limit`, as far as there
/// are members.
pub open spec fn page_of(members: Seq<Seq<char>>, limit: int, offset: int) -> Seq<Seq<char>> {
    let start = min(offset, members.len() as int);
    members.subrange(start, min(start + limit, members.len() as int))
}

/// Whether a record holds a non-empty icon.
pub open spec fn has_icon_bytes(a: AppView) -> bool {
    match a.icon_data {
        Some(b) => b.len() > 0,
        None => false,
    }
}

/// Whether some identifier occurs twice.
pub fn has_duplicate(ids: &Vec<String>) -> (r: bool)
    ensures
        r == !strings_view(ids@).no_duplicates(),
{
    let n = ids.len();
    let mut i: usize = 0;
    while i < n
        invariant
            n == ids@.len(),
            i <= n,
            forall|a: int, b: int| 0 <= a < i && 0 <= b < n && a != b
                ==> strings_view(ids@)[a] != strings_view(ids@)[b],
        decreases n - i,
    {
        let mut j: usize = 0;
        while j < n
            invariant
                n == ids@.len(),
                i < n,
                j <= n,
                forall|a: int, b: int| 0 <= a < i && 0 <= b < n && a != b
                    ==> strings_view(ids@)[a] != strings_view(ids@)[b],
                forall|b: int| 0 <= b < j && b != i ==> strings_view(ids@)[i as int] != strings_view(ids@)[b],
            decreases n - j,
        {
            if j != i && str_eq(ids[i].as_str(), ids[j].as_str()) {
                assert(strings_view(ids@)[i as int] == strings_view(ids@)[j as int]);
                return true;
            }
            j = j + 1;
        }
        i = i + 1;
    }
    false
}

/// The most results a search returns.
pub const SEARCH_LIMIT: usize = 100;

/// How many members of each curated collection the homepage shows.
pub const HOMEPAGE_SIZE: usize = 8;

/// How many members a curated collection listing returns.
pub const COLLECTION_LISTING_SIZE: usize = 24;

/// Whether a record matches a search: the query occurs in its name, summary
/// or description, ASCII case ignored.
pub open spec fn matches_query(a: AppView, q: Seq<char>) -> bool {
    opt_contains_folded(a.name, q) || opt_contains_folded(a.summary, q) || opt_contains_folded(a.description, q)
}

/// The search projections of the matching records, in table order.
pub open spec fn search_hits(rows: Seq<AppView>, q: Seq<char>) -> Seq<SearchView>
    decreases rows.len(),
{
    if rows.len() == 0 {
        Seq::empty()
    } else {
        let rest = search_hits(rows.drop_last(), q);
        if matches_query(rows.last(), q) {
            rest.push(search_view(rows.last()))
        } else {
            rest
        }
    }
}

pub open spec fn search_views(s: Seq<SearchResult>) -> Seq<SearchView> {
    s.map_values(|r: SearchResult| r@)
}

/// Whether `name` is one of the curated collections.
pub open spec fn is_curated(name: Seq<char>) -> bool {
    name == "popular"@ || name == "trending"@ || name == "recently-updated"@
}

/// The data URL of a record's stored icon, if it holds one.
pub open spec fn icon_url_of(m: Map<Seq<char>, AppView>, id: Seq<char>) -> Option<Seq<char>> {
    if m.contains_key(id) {
        match m[id].icon_data {
            Some(b) => Some(data_url(sniff(b), b)),
            None => None,
        }
    } else {
        None
    }
}

pub open spec fn opt_strings(s: Seq<Option<String>>) -> Seq<Option<Seq<char>>> {
    s.map_values(|o: Option<String>| crate::text::opt_view(o))
}

/// Whether a category code is one of the fixed list.
pub open spec fn is_known_category(id: Seq<char>) -> bool {
    crate::sync::category_codes().contains(id)
}

/// The categories of the fixed list among `rows`, in order.
pub open spec fn known_rows(rows: Seq<CategoryView>) -> Seq<CategoryView>
    decreases rows.len(),
{
    if rows.len() == 0 {
        Seq::empty()
    } else {
        let rest = known_rows(rows.drop_last());
        if is_known_category(rows.last().id) {
            rest.push(rows.last())
        } else {
            rest
        }
    }
}

/// Each category's name sorts no later than the next one's.
pub open spec fn sorted_by_name(s: Seq<CategoryView>) -> bool {
    forall|i: int| 0 <= i < s.len() - 1 ==> lex_le(codes(#[trigger] s[i].name), codes(s[i + 1].name))
}

/// Whether `id` is a code of the fixed category list.
pub fn is_known_code(id: &str) -> (r: bool)
    ensures
        r == is_known_category(id@),
{
    let list = crate::sync::category_code_list();
    let n = list.len();
    let mut i: usize = 0;
    while i < n
        invariant
            n == list@.len(),
            crate::json::keys_view(list@) == crate::sync::category_codes(),
            i <= n,
            forall|j: int| 0 <= j < i ==> list@[j]@ != id@,
        decreases n - i,
    {
        if str_eq(list[i], id) {
            assert(crate::sync::category_codes()[i as int] == id@);
            return true;
        }
        i = i + 1;
    }
    assert forall|j: int| 0 <= j < crate::sync::category_codes().len()
        implies crate::sync::category_codes()[j] != id@ by {
        assert(crate::sync::category_codes()[j] == list@[j]@);
    }
    false
}

/// Inserts `c` into a list sorted by name, after every entry whose name does
/// not sort after its own.
fn insert_by_name(out: &mut Vec<CachedCategory>, c: CachedCategory)
    requires
        sorted_by_name(category_views(old(out)@)),
    ensures
        sorted_by_name(category_views(final(out)@)),
        final(out)@.len() == old(out)@.len() + 1,
        forall|y: CategoryView| category_views(final(out)@).contains(y)
            <==> (category_views(old(out)@).contains(y) || y == c@),
{
    let ghost before = category_views(out@);
    let key = chars_of(c.name.as_str());
    let n = out.len();
    let mut p: usize = 0;
    while p < n
        invariant
            n == out@.len(),
            before == category_views(out@),
            key@ == c@.name,
            p <= n,
            forall|j: int| 0 <= j < p ==> !lex_lt(codes(c@.name), codes(before[j].name)),
        ensures
            p <= n,
            forall|j: int| 0 <= j < p ==> !lex_lt(codes(c@.name), codes(before[j].name)),
            p < n ==> lex_lt(codes(c@.name), codes(before[p as int].name)),
        decreases n - p,
    {
        let other = chars_of(out[p].name.as_str());
        if text_lt(&key, &other) {
            break;
        }
        p = p + 1;
    }
    let ghost x = c@;
    out.insert(p, c);
    proof {
        let after = category_views(out@);
        assert(after =~= before.insert(p as int, x));
        assert forall|i: int| 0 <= i < after.len() - 1
            implies lex_le(codes(#[trigger] after[i].name), codes(after[i + 1].name)) by {
            if i + 1 < p {
                assert(after[i] == before[i] && after[i + 1] == before[i + 1]);
            } else if i + 1 == p {
                lemma_lex_total(codes(x.name), codes(before[i].name));
            } else if i == p {
                assert(lex_lt(codes(x.name), codes(before[i].name)));
            } else {
                assert(after[i] == before[i - 1] && after[i + 1] == before[i]);
            }
        }
        assert forall|y: CategoryView| after.contains(y) <==> (before.contains(y) || y == x) by {
            if after.contains(y) {
                let j = choose|j: int| 0 <= j < after.len() && #[trigger] after[j] == y;
                if j < p {
                    assert(before[j] == y);
                } else if j > p {
                    assert(before[j - 1] == y);
                }
            }
            if before.contains(y) {
                let j = choose|j: int| 0 <= j < before.len() && #[trigger] before[j] == y;
                if j < p {
                    assert(after[j] == y);
                } else {
                    assert(after[j + 1] == y);
                }
            }
            if y == x {
                assert(after[p as int] == y);
            }
        }
    }
}

/// Each search hit is the projection of a matching row, and each matching
/// row's projection is among the hits.
pub proof fn lemma_search_hits(rows: Seq<AppView>, q: Seq<char>)
    ensures
        forall|i: int| 0 <= i < search_hits(rows, q).len() ==> exists|j: int|
            0 <= j < rows.len() && matches_query(rows[j], q) && #[trigger] search_hits(rows, q)[i] == search_view(rows[j]),
        forall|j: int| 0 <= j < rows.len() && matches_query(rows[j], q)
            ==> search_hits(rows, q).contains(search_view(#[trigger] rows[j])),
    decreases rows.len(),
{
    if rows.len() > 0 {
        let prev = rows.drop_last();
        let hits = search_hits(rows, q);
        let ph = search_hits(prev, q);
        lemma_search_hits(prev, q);
        assert forall|i: int| 0 <= i < hits.len() implies exists|j: int|
            0 <= j < rows.len() && matches_query(rows[j], q) && #[trigger] hits[i] == search_view(rows[j]) by {
            if i < ph.len() {
                assert(hits[i] == ph[i]);
                let j = choose|j: int| 0 <= j < prev.len() && matches_query(prev[j], q) && ph[i] == search_view(prev[j]);
                assert(rows[j] == prev[j]);
            } else {
                assert(rows[rows.len() - 1] == rows.last());
            }
        }
        assert forall|j: int| 0 <= j < rows.len() && matches_query(rows[j], q)
            implies hits.contains(search_view(#[trigger] rows[j])) by {
            if j < prev.len() {
                assert(prev[j] == rows[j]);
                assert(ph.contains(search_view(prev[j])));
                let i = choose|i: int| 0 <= i < ph.len() && ph[i] == search_view(prev[j]);
                assert(hits[i] == ph[i]);
            } else {
                assert(rows[j] == rows.last());
                assert(hits[ph.len() as int] == search_view(rows[j]));
            }
        }
    }
}

/// The known categories among some rows are exactly the rows with a code of
/// the fixed list.
pub proof fn lemma_known_rows(rows: Seq<CategoryView>)
    ensures
        forall|y: CategoryView| #[trigger] known_rows(rows).contains(y) <==> (rows.contains(y) && is_known_category(y.id)),
    decreases rows.len(),
{
    if rows.len() > 0 {
        let prev = rows.drop_last();
        let kr = known_rows(rows);
        let pk = known_rows(prev);
        lemma_known_rows(prev);
        assert forall|y: CategoryView| #[trigger] kr.contains(y) <==> (rows.contains(y) && is_known_category(y.id)) by {
            if kr.contains(y) {
                let i = choose|i: int| 0 <= i < kr.len() && kr[i] == y;
                if i < pk.len() {
                    assert(pk[i] == y);
                    assert(pk.contains(y));
                    let j = choose|j: int| 0 <= j < prev.len() && prev[j] == y;
                    assert(rows[j] == y);
                } else {
                    assert(rows[rows.len() - 1] == y);
                }
            }
            if rows.contains(y) && is_known_category(y.id) {
                let j = choose|j: int| 0 <= j < rows.len() && rows[j] == y;
                if j < prev.len() {
                    assert(prev[j] == y);
                    assert(prev.contains(y));
                    assert(pk.contains(y));
                    let i = choose|i: int| 0 <= i < pk.len() && pk[i] == y;
                    assert(kr[i] == y);
                } else {
                    assert(kr[pk.len() as int] == y);
                }
            }
        }
    }
}

/// Whether identifier `i` already occurs before index `i`.
fn named_before(ids: &Vec<String>, i: usize) -> (r: bool)
    requires
        i < ids@.len(),
    ensures
        r == strings_view(ids@).take(i as int).contains(strings_view(ids@)[i as int]),
{
    let ghost v = strings_view(ids@);
    let mut j: usize = 0;
    while j < i
        invariant
            i < ids@.len(),
            v == strings_view(ids@),
            j <= i,
            forall|k: int| 0 <= k < j ==> v[k] != v[i as int],
        decreases i - j,
    {
        if str_eq(ids[j].as_str(), ids[i].as_str()) {
            assert(v.take(i as int)[j as int] == v[i as int]);
            return true;
        }
        j = j + 1;
    }
    assert forall|k: int| 0 <= k < v.take(i as int).len() implies v.take(i as int)[k] != v[i as int] by {
        assert(v.take(i as int)[k] == v[k]);
    }
    false
}

/// The local store: apps keyed by identifier, categories keyed by code, and
/// collections keyed by identifier with their ordered memberships.
pub struct CatalogStore {
    apps: Table<CachedApp>,
    categories: Table<CachedCategory>,
    collections: Table<CachedCategoryCollection>,
}

impl CatalogStore {
    /// The apps table.
    pub closed spec fn apps(&self) -> Map<Seq<char>, AppView> {
        self.apps.view()
    }

    /// The categories table.
    pub closed spec fn categories(&self) -> Map<Seq<char>, CategoryView> {
        self.categories.view()
    }

    /// The collections with their memberships.
    pub closed spec fn collections(&self) -> Map<Seq<char>, CollectionView> {
        self.collections.view()
    }

    /// Apps in table order.
    pub closed spec fn app_rows(&self) -> Seq<AppView> {
        self.apps.row_seq()
    }

    /// Categories in table order.
    pub closed spec fn category_rows(&self) -> Seq<CategoryView> {
        self.categories.row_seq()
    }

    /// Each row is filed under its own identifier, and no collection lists an
    /// app twice.
    pub open spec fn wf(&self) -> bool {
        &&& self.tables_wf()
        &&& forall|k: Seq<char>| #[trigger] self.apps().contains_key(k) ==> self.apps()[k].app_id == k
        &&& forall|k: Seq<char>| #[trigger] self.categories().contains_key(k) ==> self.categories()[k].id == k
        &&& forall|k: Seq<char>| #[trigger] self.collections().contains_key(k) ==> {
            &&& self.collections()[k].category_id == k
            &&& self.collections()[k].app_ids.no_duplicates()
        }
    }

    pub closed spec fn tables_wf(&self) -> bool {
        &&& self.apps.wf()
        &&& self.categories.wf()
        &&& self.collections.wf()
    }

    /// The apps in table order are the stored records, each once.
    pub proof fn lemma_app_rows(&self)
        requires
            self.wf(),
        ensures
            self.app_rows().len() == self.apps().dom().len(),
            forall|i: int| 0 <= i < self.app_rows().len()
                ==> self.apps().contains_key(#[trigger] self.app_rows()[i].app_id)
                    && self.apps()[self.app_rows()[i].app_id] == self.app_rows()[i],
            forall|k: Seq<char>| #[trigger] self.apps().contains_key(k)
                ==> exists|i: int| 0 <= i < self.app_rows().len() && self.app_rows()[i] == self.apps()[k],
    {
        self.apps.lemma_rows();
        assert forall|i: int| 0 <= i < self.app_rows().len()
            implies self.apps().contains_key(#[trigger] self.app_rows()[i].app_id)
                && self.apps()[self.app_rows()[i].app_id] == self.app_rows()[i] by {
            let k = self.apps.key_seq()[i];
            assert(self.apps.key_seq().to_set().contains(k));
            assert(self.apps()[k] == self.app_rows()[i]);
        }
        assert forall|k: Seq<char>| #[trigger] self.apps().contains_key(k)
            implies exists|i: int| 0 <= i < self.app_rows().len() && self.app_rows()[i] == self.apps()[k] by {
            assert(self.apps.key_seq().to_set().contains(k));
            let i = self.apps.key_seq().index_of(k);
            assert(self.apps.key_seq()[i] == k);
        }
    }

    /// The categories in table order are the stored categories, each once.
    pub proof fn lemma_category_rows(&self)
        requires
            self.wf(),
        ensures
            self.category_rows().len() == self.categories().dom().len(),
            forall|i: int| 0 <= i < self.category_rows().len()
                ==> self.categories().contains_key(#[trigger] self.category_rows()[i].id)
                    && self.categories()[self.category_rows()[i].id] == self.category_rows()[i],
            forall|k: Seq<char>| #[trigger] self.categories().contains_key(k)
                ==> exists|i: int| 0 <= i < self.category_rows().len() && self.category_rows()[i] == self.categories()[k],
    {
        self.categories.lemma_rows();
        assert forall|i: int| 0 <= i < self.category_rows().len()
            implies self.categories().contains_key(#[trigger] self.category_rows()[i].id)
                && self.categories()[self.category_rows()[i].id] == self.category_rows()[i] by {
            let k = self.categories.key_seq()[i];
            assert(self.categories.key_seq().to_set().contains(k));
            assert(self.categories()[k] == self.category_rows()[i]);
        }
        assert forall|k: Seq<char>| #[trigger] self.categories().contains_key(k)
            implies exists|i: int| 0 <= i < self.category_rows().len() && self.category_rows()[i] == self.categories()[k] by {
            assert(self.categories.key_seq().to_set().contains(k));
            let i = self.categories.key_seq().index_of(k);
            assert(self.categories.key_seq()[i] == k);
            assert(self.categories()[self.categories.key_seq()[i]] == self.category_rows()[i]);
        }
    }

    /// An empty store.
    pub fn new() -> (r: CatalogStore)
        ensures
            r.wf(),
            r.apps() == Map::<Seq<char>, AppView>::empty(),
            r.categories() == Map::<Seq<char>, CategoryView>::empty(),
            r.collections() == Map::<Seq<char>, CollectionView>::empty(),
    {
        CatalogStore { apps: Table::new(), categories: Table::new(), collections: Table::new() }
    }

    /// Deletes every row of every table.
    pub fn clear_all(&mut self)
        ensures
            final(self).wf(),
            final(self).apps() == Map::<Seq<char>, AppView>::empty(),
            final(self).categories() == Map::<Seq<char>, CategoryView>::empty(),
            final(self).collections() == Map::<Seq<char>, CollectionView>::empty(),
    {
        *self = CatalogStore::new();
    }

    /// The number of apps stored.
    pub fn app_count(&self) -> (r: usize)
        requires
            self.wf(),
        ensures
            r == self.apps().dom().len(),
    {
        self.apps.len()
    }

    /// Whether the store holds at least one app.
    pub fn is_cache_ready_sync(&self) -> (r: bool)
        requires
            self.wf(),
        ensures
            r == (self.apps().dom().len() > 0),
    {
        self.apps.len() > 0
    }

    /// Writes one record, replacing every column of any record with its
    /// identifier.
    pub fn upsert_app(&mut self, app: CachedApp)
        requires
            old(self).wf(),
        ensures
            final(self).wf(),
            final(self).apps() == old(self).apps().insert(app@.app_id, app@),
            final(self).categories() == old(self).categories(),
            final(self).collections() == old(self).collections(),
    {
        let key = app.app_id.clone();
        let ghost a = app@;
        self.apps.upsert(key, app);
        assert(self.tables_wf());
        assert forall|k: Seq<char>| #[trigger] self.apps().contains_key(k)
            implies self.apps()[k].app_id == k by {
            if k != a.app_id {
                assert(old(self).apps().contains_key(k));
            }
        }
        assert(self.categories() == old(self).categories());
        assert(self.collections() == old(self).collections());
    }

    /// Writes a batch of records in order, as one transaction.
    pub fn upsert_apps(&mut self, batch: Vec<CachedApp>)
        requires
            old(self).wf(),
        ensures
            final(self).wf(),
            final(self).apps() == upsert_all(old(self).apps(), app_views(batch@)),
            final(self).categories() == old(self).categories(),
            final(self).collections() == old(self).collections(),
    {
        let ghost views = app_views(batch@);
        let ghost start = *self;
        let total = batch.len();
        let mut i: usize = 0;
        while i < total
            invariant
                self.wf(),
                total == batch@.len(),
                i <= total,
                views == app_views(batch@),
                self.apps() == upsert_all(start.apps(), views.take(i as int)),
                self.categories() == start.categories(),
                self.collections() == start.collections(),
            decreases total - i,
        {
            let a = batch[i].duplicate();
            proof {
                assert(views.take(i + 1).drop_last() =~= views.take(i as int));
            }
            self.upsert_app(a);
            i = i + 1;
        }
        assert(views.take(total as int) =~= views);
    }

    /// The record stored under `app_id`, with every column.
    pub fn get_cached_app_sync(&self, app_id: &str) -> (r: Option<CachedApp>)
        requires
            self.wf(),
        ensures
            match r {
                Some(a) => self.apps().contains_key(app_id@) && a@ == self.apps()[app_id@],
                None => !self.apps().contains_key(app_id@),
            },
    {
        match self.apps.get(app_id) {
            Some(a) => Some(a.duplicate()),
            None => None,
        }
    }

    /// The records stored under `ids`, in the order of `ids`, projected by `p`.
    pub fn get_apps_batch_opt(&self, ids: &Vec<String>, p: Projection) -> (r: Vec<CachedApp>)
        requires
            self.wf(),
        ensures
            app_views(r@) == lookup_batch(self.apps(), strings_view(ids@), p),
    {
        let ghost v = strings_view(ids@);
        let mut r: Vec<CachedApp> = Vec::new();
        let n = ids.len();
        let mut i: usize = 0;
        while i < n
            invariant
                self.wf(),
                n == ids@.len(),
                v == strings_view(ids@),
                i <= n,
                app_views(r@) == lookup_batch(self.apps(), v.take(i as int), p),
            decreases n - i,
        {
            proof {
                assert(v.take(i + 1).drop_last() =~= v.take(i as int));
            }
            let ghost prev = r@;
            assert(v.take(i + 1).last() == v[i as int]);
            if !named_before(ids, i) {
                match self.apps.get(ids[i].as_str()) {
                    Some(a) => {
                        r.push(project_app(a, p));
                        assert(app_views(r@) =~= app_views(prev).push(project(self.apps()[v[i as int]], p)));
                    },
                    None => {},
                }
            }
            i = i + 1;
        }
        assert(v.take(n as int) =~= v);
        r
    }

    /// The records stored under `app_ids`, in their order, with descriptions
    /// and icon bytes.
    pub fn get_cached_apps_batch_sync(&self, app_ids: &Vec<String>) -> (r: Vec<CachedApp>)
        requires
            self.wf(),
        ensures
            app_views(r@) == lookup_batch(self.apps(), strings_view(app_ids@), Projection::WithDescription),
    {
        self.get_apps_batch_opt(app_ids, Projection::WithDescription)
    }

    /// Whether the record under `app_id` holds a non-empty icon.
    pub fn has_icon(&self, app_id: &str) -> (r: bool)
        requires
            self.wf(),
        ensures
            r == (self.apps().contains_key(app_id@) && has_icon_bytes(self.apps()[app_id@])),
    {
        match self.apps.get(app_id) {
            Some(a) => match &a.icon_data {
                Some(b) => b.len() > 0,
                None => false,
            },
            None => false,
        }
    }

    /// Stores icon bytes for the record under `app_id`, touching no other
    /// column; returns whether such a record exists.
    pub fn set_icon_data(&mut self, app_id: &str, bytes: Vec<u8>) -> (r: bool)
        requires
            old(self).wf(),
        ensures
            final(self).wf(),
            r == old(self).apps().contains_key(app_id@),
            r ==> final(self).apps() == old(self).apps().insert(
                app_id@,
                with_icon(old(self).apps()[app_id@], bytes@),
            ),
            !r ==> final(self).apps() == old(self).apps(),
            final(self).categories() == old(self).categories(),
            final(self).collections() == old(self).collections(),
    {
        match self.apps.find(app_id) {
            Some(i) => {
                let ghost k = self.apps.key_seq()[i as int];
                proof {
                    self.apps.lemma_at(i as int);
                }
                assert(self.apps().contains_key(k));
                let old_row = self.apps.row(i);
                let mut row = old_row.duplicate();
                let ghost bv = bytes@;
                row.icon_data = Some(bytes);
                assert(row@ == with_icon(old(self).apps()[k], bv));
                self.apps.set_row(i, row);
                assert(self.tables_wf());
                assert(self.apps()[k].app_id == k);
                assert(self.categories() == old(self).categories());
                assert(self.collections() == old(self).collections());
                assert forall|q: Seq<char>| #[trigger] self.apps().contains_key(q)
                    implies self.apps()[q].app_id == q by {
                    if q != k {
                        assert(old(self).apps().contains_key(q));
                    }
                }
                true
            },
            None => false,
        }
    }

    /// Replaces the category set with `cats`, as one transaction.
    pub fn replace_category_set(&mut self, cats: &Vec<CachedCategory>)
        requires
            old(self).wf(),
        ensures
            final(self).wf(),
            final(self).categories() == category_table(category_views(cats@)),
            final(self).apps() == old(self).apps(),
            final(self).collections() == old(self).collections(),
    {
        let ghost views = category_views(cats@);
        self.categories.clear();
        assert(self.tables_wf());
        assert(self.apps() == old(self).apps());
        assert(self.collections() == old(self).collections());
        assert(self.categories() =~= category_table(views.take(0)));
        let n = cats.len();
        let mut i: usize = 0;
        while i < n
            invariant
                self.wf(),
                n == cats@.len(),
                i <= n,
                views == category_views(cats@),
                self.categories() == category_table(views.take(i as int)),
                self.apps() == old(self).apps(),
                self.collections() == old(self).collections(),
            decreases n - i,
        {
            proof {
                assert(views.take(i + 1).drop_last() =~= views.take(i as int));
            }
            let c = cats[i].duplicate();
            let key = c.id.clone();
            let ghost cv = c@;
            self.categories.upsert(key, c);
            assert forall|q: Seq<char>| #[trigger] self.categories().contains_key(q)
                implies self.categories()[q].id == q by {
                if q != cv.id {
                    assert(category_table(views.take(i as int)).contains_key(q));
                }
            }
            i = i + 1;
        }
        assert(views.take(n as int) =~= views);
    }

    /// Replaces a collection's header and its whole membership list, as one
    /// transaction; refused, with the store unchanged, where the list names an
    /// app twice.
    pub fn replace_collection(&mut self, collection: CachedCategoryCollection) -> (r: Result<(), StoreError>)
        requires
            old(self).wf(),
        ensures
            final(self).wf(),
            final(self).apps() == old(self).apps(),
            final(self).categories() == old(self).categories(),
            match r {
                Ok(()) => {
                    &&& collection@.app_ids.no_duplicates()
                    &&& final(self).collections() == old(self).collections().insert(
                        collection@.category_id,
                        collection@,
                    )
                },
                Err(e) => {
                    &&& e == StoreError::DuplicateMember
                    &&& !collection@.app_ids.no_duplicates()
                    &&& final(self).collections() == old(self).collections()
                },
            },
    {
        if has_duplicate(&collection.app_ids) {
            return Err(StoreError::DuplicateMember);
        }
        let key = collection.category_id.clone();
        let ghost cv = collection@;
        self.collections.upsert(key, collection);
        assert forall|q: Seq<char>| #[trigger] self.collections().contains_key(q) implies {
            &&& self.collections()[q].category_id == q
            &&& self.collections()[q].app_ids.no_duplicates()
        } by {
            if q != cv.category_id {
                assert(old(self).collections().contains_key(q));
            }
        }
        assert(self.tables_wf());
        assert(self.apps() == old(self).apps());
        assert(self.categories() == old(self).categories());
        Ok(())
    }

    /// The collection stored under `category_id`, with its members in order.
    pub fn get_cached_category_collection_sync(&self, category_id: &str) -> (r: Option<CachedCategoryCollection>)
        requires
            self.wf(),
        ensures
            match r {
                Some(c) => self.collections().contains_key(category_id@)
                    && c@ == self.collections()[category_id@],
                None => !self.collections().contains_key(category_id@),
            },
    {
        match self.collections.get(category_id) {
            Some(c) => Some(c.duplicate()),
            None => None,
        }
    }

    /// One page of a collection's members, in position order, with the number
    /// of members in the whole collection.
    pub fn collection_page_ids(&self, category_id: &str, limit: usize, offset: usize) -> (r: (Vec<String>, usize))
        requires
            self.wf(),
        ensures
            strings_view(r.0@) == page_of(members_of(self.collections(), category_id@), limit as int, offset as int),
            r.1 == members_of(self.collections(), category_id@).len(),
    {
        match self.collections.get(category_id) {
            Some(c) => {
                let len = c.app_ids.len();
                let start = if offset < len { offset } else { len };
                let end = if limit < len - start { start + limit } else { len };
                (copy_strings(&c.app_ids, start, end), len)
            },
            None => {
                let r: Vec<String> = Vec::new();
                assert(strings_view(r@) =~= Seq::<Seq<char>>::empty());
                (r, 0)
            },
        }
    }

    /// Every record, with every column, in table order.
    pub fn get_cached_apps_sync(&self) -> (r: Vec<CachedApp>)
        requires
            self.wf(),
        ensures
            app_views(r@) == self.app_rows(),
            r@.len() == self.apps().dom().len(),
            forall|i: int| 0 <= i < r@.len() ==> self.apps().contains_key((#[trigger] r@[i])@.app_id)
                && self.apps()[r@[i]@.app_id] == r@[i]@,
            forall|k: Seq<char>| #[trigger] self.apps().contains_key(k)
                ==> exists|i: int| 0 <= i < r@.len() && r@[i]@ == self.apps()[k],
    {
        let mut r: Vec<CachedApp> = Vec::new();
        let n = self.apps.len();
        proof {
            self.apps.lemma_rows();
        }
        let mut i: usize = 0;
        while i < n
            invariant
                self.wf(),
                n == self.apps.key_seq().len(),
                n == self.app_rows().len(),
                i <= n,
                app_views(r@) == self.app_rows().take(i as int),
            decreases n - i,
        {
            let a = self.apps.row(i).duplicate();
            let ghost prev = r@;
            r.push(a);
            assert(app_views(r@) =~= app_views(prev).push(a@));
            assert(app_views(r@) =~= self.app_rows().take(i + 1));
            i = i + 1;
        }
        proof {
            self.apps.lemma_rows();
        }
        assert(self.app_rows().take(n as int) =~= self.app_rows());
        proof {
            self.lemma_app_rows();
            assert forall|i: int| 0 <= i < r@.len() implies self.apps().contains_key((#[trigger] r@[i])@.app_id)
                && self.apps()[r@[i]@.app_id] == r@[i]@ by {
                assert(r@[i]@ == app_views(r@)[i]);
                assert(self.app_rows()[i] == r@[i]@);
            }
            assert forall|k: Seq<char>| #[trigger] self.apps().contains_key(k)
                implies exists|i: int| 0 <= i < r@.len() && r@[i]@ == self.apps()[k] by {
                let i = choose|i: int| 0 <= i < self.app_rows().len() && self.app_rows()[i] == self.apps()[k];
                assert(r@[i]@ == app_views(r@)[i]);
            }
        }
        r
    }

    /// The records whose name, summary or description contains `query`,
    /// ASCII case ignored, in table order, at most `SEARCH_LIMIT` of them.
    pub fn search_cached_apps_sync(&self, query: &str) -> (r: Vec<SearchResult>)
        requires
            self.wf(),
        ensures
            search_views(r@) == search_hits(self.app_rows(), query@).take(
                min(SEARCH_LIMIT as int, search_hits(self.app_rows(), query@).len() as int),
            ),
            r@.len() <= SEARCH_LIMIT,
            forall|i: int| 0 <= i < r@.len() ==> exists|k: Seq<char>| self.apps().contains_key(k)
                && matches_query(self.apps()[k], query@) && (#[trigger] r@[i])@ == search_view(self.apps()[k]),
            search_hits(self.app_rows(), query@).len() <= SEARCH_LIMIT ==> forall|k: Seq<char>|
                #[trigger] self.apps().contains_key(k) && matches_query(self.apps()[k], query@)
                ==> exists|i: int| 0 <= i < r@.len() && r@[i]@ == search_view(self.apps()[k]),
    {
        let q = chars_of(query);
        let ghost rows = self.app_rows();
        let mut r: Vec<SearchResult> = Vec::new();
        let n = self.apps.len();
        proof {
            self.apps.lemma_rows();
        }
        let mut i: usize = 0;
        while i < n
            invariant
                self.wf(),
                rows == self.app_rows(),
                n == rows.len(),
                n == self.apps.key_seq().len(),
                q@ == query@,
                i <= n,
                search_views(r@) == search_hits(rows.take(i as int), query@),
            decreases n - i,
        {
            proof {
                assert(rows.take(i + 1).drop_last() =~= rows.take(i as int));
            }
            let a = self.apps.row(i);
            let ghost prev = r@;
            if opt_contains_ignoring_case(&a.name, &q) || opt_contains_ignoring_case(&a.summary, &q)
                || opt_contains_ignoring_case(&a.description, &q) {
                let hit = SearchResult::of_app(a);
                r.push(hit);
                assert(search_views(r@) =~= search_views(prev).push(hit@));
            }
            i = i + 1;
        }
        assert(rows.take(n as int) =~= rows);
        let ghost all = r@;
        r.truncate(SEARCH_LIMIT);
        assert(search_views(r@) =~= search_views(all).take(min(SEARCH_LIMIT as int, all.len() as int)));
        proof {
            let hits = search_hits(rows, query@);
            self.lemma_app_rows();
            lemma_search_hits(rows, query@);
            assert forall|i: int| 0 <= i < r@.len() implies exists|k: Seq<char>| self.apps().contains_key(k)
                && matches_query(self.apps()[k], query@) && (#[trigger] r@[i])@ == search_view(self.apps()[k]) by {
                assert(r@[i]@ == search_views(r@)[i]);
                assert(r@[i]@ == hits[i]);
                let j = choose|j: int| 0 <= j < rows.len() && matches_query(rows[j], query@) && hits[i] == search_view(rows[j]);
                let k = rows[j].app_id;
                assert(self.apps()[k] == rows[j]);
            }
            if hits.len() <= SEARCH_LIMIT {
                assert forall|k: Seq<char>| #[trigger] self.apps().contains_key(k) && matches_query(self.apps()[k], query@)
                    implies exists|i: int| 0 <= i < r@.len() && r@[i]@ == search_view(self.apps()[k]) by {
                    let j = choose|j: int| 0 <= j < rows.len() && rows[j] == self.apps()[k];
                    assert(matches_query(rows[j], query@));
                    assert(hits.contains(search_view(rows[j])));
                    let i = choose|i: int| 0 <= i < hits.len() && hits[i] == search_view(rows[j]);
                    assert(r@[i]@ == search_views(r@)[i]);
                }
            }
        }
        r
    }

    /// The first `limit` members of a collection with their records, projected
    /// by `p`; members with no record are skipped.
    pub fn collection_head(&self, category_id: &str, limit: usize, p: Projection) -> (r: Vec<CachedApp>)
        requires
            self.wf(),
        ensures
            app_views(r@) == lookup_batch(
                self.apps(),
                page_of(members_of(self.collections(), category_id@), limit as int, 0),
                p,
            ),
    {
        let (ids, _total) = self.collection_page_ids(category_id, limit, 0);
        self.get_apps_batch_opt(&ids, p)
    }

    /// The heads of the three curated collections for the homepage, each in
    /// its own order, with icon bytes and without descriptions.
    pub fn get_homepage_collections_sync(&self) -> (r: (Vec<CachedApp>, Vec<CachedApp>, Vec<CachedApp>))
        requires
            self.wf(),
        ensures
            app_views(r.0@) == lookup_batch(
                self.apps(),
                page_of(members_of(self.collections(), "popular"@), HOMEPAGE_SIZE as int, 0),
                Projection::WithIcon,
            ),
            app_views(r.1@) == lookup_batch(
                self.apps(),
                page_of(members_of(self.collections(), "trending"@), HOMEPAGE_SIZE as int, 0),
                Projection::WithIcon,
            ),
            app_views(r.2@) == lookup_batch(
                self.apps(),
                page_of(members_of(self.collections(), "recently-updated"@), HOMEPAGE_SIZE as int, 0),
                Projection::WithIcon,
            ),
    {
        (
            self.collection_head("popular", HOMEPAGE_SIZE, Projection::WithIcon),
            self.collection_head("trending", HOMEPAGE_SIZE, Projection::WithIcon),
            self.collection_head("recently-updated", HOMEPAGE_SIZE, Projection::WithIcon),
        )
    }

    /// The head of a curated collection with descriptions and icon bytes;
    /// refused for a name outside the three curated collections.
    pub fn get_cached_collection_apps_sync(&self, collection_type: &str) -> (r: Result<Vec<CachedApp>, CatalogError>)
        requires
            self.wf(),
        ensures
            match r {
                Ok(apps) => is_curated(collection_type@) && app_views(apps@) == lookup_batch(
                    self.apps(),
                    page_of(members_of(self.collections(), collection_type@), COLLECTION_LISTING_SIZE as int, 0),
                    Projection::WithDescription,
                ),
                Err(e) => !is_curated(collection_type@) && e == CatalogError::UnknownCollection,
            },
    {
        if str_eq(collection_type, "popular") || str_eq(collection_type, "trending")
            || str_eq(collection_type, "recently-updated") {
            Ok(self.collection_head(collection_type, COLLECTION_LISTING_SIZE, Projection::WithDescription))
        } else {
            Err(CatalogError::UnknownCollection)
        }
    }

    /// A collection's header, with no members listed, and the records of its
    /// first `limit` members; nothing where the collection is absent.
    pub fn get_category_with_apps_sync(&self, category_id: &str, limit: usize) -> (r: Option<(CachedCategoryCollection, Vec<CachedApp>)>)
        requires
            self.wf(),
        ensures
            match r {
                Some((header, apps)) => {
                    &&& self.collections().contains_key(category_id@)
                    &&& header@.category_id == self.collections()[category_id@].category_id
                    &&& header@.total_hits == self.collections()[category_id@].total_hits
                    &&& header@.cached_at == self.collections()[category_id@].cached_at
                    &&& header@.app_ids == Seq::<Seq<char>>::empty()
                    &&& app_views(apps@) == lookup_batch(
                        self.apps(),
                        page_of(members_of(self.collections(), category_id@), limit as int, 0),
                        Projection::Minimal,
                    )
                },
                None => !self.collections().contains_key(category_id@),
            },
    {
        match self.collections.get(category_id) {
            Some(c) => {
                let header = CachedCategoryCollection {
                    category_id: c.category_id.clone(),
                    app_ids: Vec::new(),
                    total_hits: c.total_hits,
                    cached_at: c.cached_at,
                };
                assert(header@.app_ids =~= Seq::<Seq<char>>::empty());
                let apps = self.collection_head(category_id, limit, Projection::Minimal);
                Some((header, apps))
            },
            None => None,
        }
    }

    /// The stored icon of `app_id` as a data URL.
    pub fn get_app_icon_data_url_sync(&self, app_id: &str) -> (r: Option<String>)
        requires
            self.wf(),
        ensures
            crate::text::opt_view(r) == icon_url_of(self.apps(), app_id@),
    {
        match self.apps.get(app_id) {
            Some(a) => match &a.icon_data {
                Some(b) => Some(icon_data_url(b)),
                None => None,
            },
            None => None,
        }
    }

    /// The stored icons of `app_ids` as data URLs, one entry per identifier.
    pub fn get_app_icons_batch_sync(&self, app_ids: &Vec<String>) -> (r: Vec<Option<String>>)
        requires
            self.wf(),
        ensures
            opt_strings(r@) == strings_view(app_ids@).map_values(|id: Seq<char>| icon_url_of(self.apps(), id)),
    {
        let mut r: Vec<Option<String>> = Vec::new();
        let n = app_ids.len();
        let mut i: usize = 0;
        while i < n
            invariant
                self.wf(),
                n == app_ids@.len(),
                i <= n,
                opt_strings(r@) == strings_view(app_ids@).take(i as int).map_values(
                    |id: Seq<char>| icon_url_of(self.apps(), id),
                ),
            decreases n - i,
        {
            let u = self.get_app_icon_data_url_sync(app_ids[i].as_str());
            let ghost prev = r@;
            r.push(u);
            assert(opt_strings(r@) =~= opt_strings(prev).push(crate::text::opt_view(u)));
            assert(opt_strings(r@) =~= strings_view(app_ids@).take(i + 1).map_values(
                |id: Seq<char>| icon_url_of(self.apps(), id),
            ));
            i = i + 1;
        }
        assert(strings_view(app_ids@).take(n as int) =~= strings_view(app_ids@));
        r
    }

    /// The stored categories of the fixed list, sorted by name.
    pub fn get_cached_categories_sync(&self) -> (r: Vec<CachedCategory>)
        requires
            self.wf(),
        ensures
            sorted_by_name(category_views(r@)),
            r@.len() == known_rows(self.category_rows()).len(),
            forall|y: CategoryView| category_views(r@).contains(y)
                <==> known_rows(self.category_rows()).contains(y),
            forall|i: int| 0 <= i < r@.len() ==> is_known_category((#[trigger] r@[i])@.id)
                && self.categories().contains_key(r@[i]@.id) && self.categories()[r@[i]@.id] == r@[i]@,
            forall|k: Seq<char>| #[trigger] self.categories().contains_key(k) && is_known_category(k)
                ==> exists|i: int| 0 <= i < r@.len() && r@[i]@ == self.categories()[k],
    {
        let ghost rows = self.category_rows();
        proof {
            self.categories.lemma_rows();
        }
        let mut known: Vec<CachedCategory> = Vec::new();
        let n = self.categories.len();
        let mut i: usize = 0;
        while i < n
            invariant
                self.wf(),
                rows == self.category_rows(),
                n == rows.len(),
                n == self.categories.key_seq().len(),
                i <= n,
                category_views(known@) == known_rows(rows.take(i as int)),
            decreases n - i,
        {
            proof {
                assert(rows.take(i + 1).drop_last() =~= rows.take(i as int));
            }
            let c = self.categories.row(i);
            let ghost prev = known@;
            if is_known_code(c.id.as_str()) {
                let d = c.duplicate();
                known.push(d);
                assert(category_views(known@) =~= category_views(prev).push(d@));
            }
            i = i + 1;
        }
        assert(rows.take(n as int) =~= rows);
        let ghost kv = category_views(known@);
        let mut out: Vec<CachedCategory> = Vec::new();
        let m = known.len();
        let mut j: usize = 0;
        while j < m
            invariant
                m == known@.len(),
                kv == category_views(known@),
                j <= m,
                out@.len() == j,
                sorted_by_name(category_views(out@)),
                forall|y: CategoryView| category_views(out@).contains(y) <==> kv.take(j as int).contains(y),
            decreases m - j,
        {
            let d = known[j].duplicate();
            assert(d@ == kv[j as int]);
            let ghost old_out = category_views(out@);
            insert_by_name(&mut out, d);
            proof {
                assert forall|y: CategoryView| kv.take(j + 1).contains(y)
                    <==> (kv.take(j as int).contains(y) || y == kv[j as int]) by {
                    if kv.take(j + 1).contains(y) {
                        let q = choose|q: int| 0 <= q < j + 1 && #[trigger] kv.take(j + 1)[q] == y;
                        if q < j {
                            assert(kv.take(j as int)[q] == y);
                        }
                    }
                    if kv.take(j as int).contains(y) {
                        let q = choose|q: int| 0 <= q < j && #[trigger] kv.take(j as int)[q] == y;
                        assert(kv.take(j + 1)[q] == y);
                    }
                    if y == kv[j as int] {
                        assert(kv.take(j + 1)[j as int] == y);
                    }
                }
                assert forall|y: CategoryView| category_views(out@).contains(y)
                    <==> kv.take(j + 1).contains(y) by {
                    assert(old_out.contains(y) <==> kv.take(j as int).contains(y));
                    assert(category_views(out@).contains(y) <==> (old_out.contains(y) || y == kv[j as int]));
                }
            }
            j = j + 1;
        }
        assert(kv.take(m as int) =~= kv);
        proof {
            let cv = category_views(out@);
            self.lemma_category_rows();
            lemma_known_rows(rows);
            assert forall|i: int| 0 <= i < out@.len() implies is_known_category((#[trigger] out@[i])@.id)
                && self.categories().contains_key(out@[i]@.id) && self.categories()[out@[i]@.id] == out@[i]@ by {
                assert(cv[i] == out@[i]@);
                assert(cv.contains(out@[i]@));
                assert(known_rows(rows).contains(out@[i]@));
                let j = choose|j: int| 0 <= j < rows.len() && rows[j] == out@[i]@;
                assert(self.categories()[rows[j].id] == rows[j]);
            }
            assert forall|k: Seq<char>| #[trigger] self.categories().contains_key(k) && is_known_category(k)
                implies exists|i: int| 0 <= i < out@.len() && out@[i]@ == self.categories()[k] by {
                let j = choose|j: int| 0 <= j < rows.len() && rows[j] == self.categories()[k];
                assert(rows.contains(rows[j]));
                assert(known_rows(rows).contains(rows[j]));
                assert(cv.contains(rows[j]));
                let i = choose|i: int| 0 <= i < cv.len() && cv[i] == rows[j];
                assert(out@[i]@ == cv[i]);
            }
        }
        out
    }

    /// One page of a collection's apps, in position order, members with no
    /// stored record skipped, with the number of members in the collection.
    pub fn get_category_apps_page_sync(&self, category_id: &str, limit: usize, offset: usize) -> (r: (Vec<CachedApp>, usize))
        requires
            self.wf(),
        ensures
            app_views(r.0@) == lookup_batch(
                self.apps(),
                page_of(members_of(self.collections(), category_id@), limit as int, offset as int),
                Projection::Minimal,
            ),
            r.1 == members_of(self.collections(), category_id@).len(),
    {
        let (ids, total) = self.collection_page_ids(category_id, limit, offset);
        (self.get_apps_batch_opt(&ids, Projection::Minimal), total)
    }
}

/// A copy of a record, projected by `p`.
pub fn project_app(a: &CachedApp, p: Projection) -> (r: CachedApp)
    ensures
        r@ == project(a@, p),
{
    let with_description = match p {
        Projection::WithDescription | Projection::Full => true,
        _ => false,
    };
    CachedApp {
        app_id: a.app_id.clone(),
        name: clone_opt(&a.name),
        description: if with_description { clone_opt(&a.description) } else { None },
        summary: clone_opt(&a.summary),
        download_flatpak_ref: clone_opt(&a.download_flatpak_ref),
        icon_url: clone_opt(&a.icon_url),
        icon_path: clone_opt(&a.icon_path),
        icon_data: match p {
            Projection::Minimal => None,
            _ => crate::types::clone_blob(&a.icon_data),
        },
        cached_at: match p {
            Projection::Full => a.cached_at,
            _ => 0,
        },
    }
}

/// Reading back after a batch write: the record last written under an
/// identifier comes back with exactly the fields written, no earlier write
/// merged into it.
pub proof fn law_upsert_then_read(m: Map<Seq<char>, AppView>, batch: Seq<AppView>, i: int)
    requires
        0 <= i < batch.len(),
        forall|j: int| i < j < batch.len() ==> batch[j].app_id != batch[i].app_id,
    ensures
        upsert_all(m, batch).contains_key(batch[i].app_id),
        upsert_all(m, batch)[batch[i].app_id] == batch[i],
    decreases batch.len(),
{
    if i < batch.len() - 1 {
        assert(batch.drop_last()[i] == batch[i]);
        law_upsert_then_read(m, batch.drop_last(), i);
    }
}

/// A batch write leaves the records of identifiers that it does not name as
/// they were.
pub proof fn law_upsert_keeps_others(m: Map<Seq<char>, AppView>, batch: Seq<AppView>, k: Seq<char>)
    requires
        forall|j: int| 0 <= j < batch.len() ==> batch[j].app_id != k,
    ensures
        upsert_all(m, batch).contains_key(k) == m.contains_key(k),
        m.contains_key(k) ==> upsert_all(m, batch)[k] == m[k],
    decreases batch.len(),
{
    if batch.len() > 0 {
        law_upsert_keeps_others(m, batch.drop_last(), k);
    }
}

/// An icon write changes the icon bytes and no other field of the record.
pub proof fn law_icon_write_keeps_fields(a: AppView, bytes: Seq<u8>)
    ensures
        with_icon(a, bytes).icon_data == Some(bytes),
        with_icon(a, bytes).app_id == a.app_id,
        with_icon(a, bytes).name == a.name,
        with_icon(a, bytes).description == a.description,
        with_icon(a, bytes).summary == a.summary,
        with_icon(a, bytes).download_flatpak_ref == a.download_flatpak_ref,
        with_icon(a, bytes).icon_url == a.icon_url,
        with_icon(a, bytes).icon_path == a.icon_path,
        with_icon(a, bytes).cached_at == a.cached_at,
{
}

/// The apps table after a sequence of icon writes, each as `set_icon_data`
/// (and `finish_icon_cache` on a 2xx answer) performs it: the bytes replace
/// the icon of a stored record and nothing else; an identifier with no
/// record is left alone.
pub open spec fn icon_writes(m: Map<Seq<char>, AppView>, writes: Seq<(Seq<char>, Seq<u8>)>) -> Map<Seq<char>, AppView>
    decreases writes.len(),
{
    if writes.len() == 0 {
        m
    } else {
        let prev = icon_writes(m, writes.drop_last());
        let w = writes.last();
        if prev.contains_key(w.0) {
            prev.insert(w.0, with_icon(prev[w.0], w.1))
        } else {
            prev
        }
    }
}

/// Two records agree on every column but the icon bytes.
pub open spec fn same_but_icon(a: AppView, b: AppView) -> bool {
    &&& a.app_id == b.app_id
    &&& a.name == b.name
    &&& a.description == b.description
    &&& a.summary == b.summary
    &&& a.download_flatpak_ref == b.download_flatpak_ref
    &&& a.icon_url == b.icon_url
    &&& a.icon_path == b.icon_path
    &&& a.cached_at == b.cached_at
}

/// Any number of icon writes keeps every stored record, and every column of
/// it but the icon bytes.
pub proof fn law_icon_writes_keep_fields(m: Map<Seq<char>, AppView>, writes: Seq<(Seq<char>, Seq<u8>)>, k: Seq<char>)
    requires
        m.contains_key(k),
    ensures
        icon_writes(m, writes).contains_key(k),
        same_but_icon(icon_writes(m, writes)[k], m[k]),
    decreases writes.len(),
{
    if writes.len() > 0 {
        law_icon_writes_keep_fields(m, writes.drop_last(), k);
    }
}

/// Reading back after a batch write followed by any number of icon writes:
/// the record last written under an identifier comes back with exactly the
/// columns written, other than its icon bytes.
pub proof fn law_read_after_writes(
    m: Map<Seq<char>, AppView>,
    batch: Seq<AppView>,
    i: int,
    writes: Seq<(Seq<char>, Seq<u8>)>,
)
    requires
        0 <= i < batch.len(),
        forall|j: int| i < j < batch.len() ==> batch[j].app_id != batch[i].app_id,
    ensures
        icon_writes(upsert_all(m, batch), writes).contains_key(batch[i].app_id),
        same_but_icon(icon_writes(upsert_all(m, batch), writes)[batch[i].app_id], batch[i]),
{
    law_upsert_then_read(m, batch, i);
    law_icon_writes_keep_fields(upsert_all(m, batch), writes, batch[i].app_id);
}

/// Replacing a collection's members twice leaves exactly the second list, in
/// its order: the member at index `i` has position `i`, and no member of the
/// first list that the second one lacks remains.
pub proof fn law_collection_replacement(
    c: Map<Seq<char>, CollectionView>,
    first: CollectionView,
    second: CollectionView,
)
    requires
        first.category_id == second.category_id,
    ensures
        ({
            let after = c.insert(first.category_id, first).insert(second.category_id, second);
            &&& members_of(after, second.category_id) == second.app_ids
            &&& forall|x: Seq<char>| first.app_ids.contains(x) && !second.app_ids.contains(x)
                ==> !members_of(after, second.category_id).contains(x)
        }),
{
}

/// A page holds the members at positions `offset`, `offset + 1`, ... in
/// order, as many as `limit` allows and the collection has.
pub proof fn law_page_positions(members: Seq<Seq<char>>, limit: nat, offset: nat)
    requires
        offset <= members.len(),
    ensures
        page_of(members, limit as int, offset as int).len() == min(limit as int, members.len() - offset),
        forall|j: int| 0 <= j < page_of(members, limit as int, offset as int).len()
            ==> #[trigger] page_of(members, limit as int, offset as int)[j] == members[offset + j],
{
}

} // verus!
