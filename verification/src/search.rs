//! Incremental, cache-backed substring search over item metadata.
//!
//! The search cache is filled as metadata tiles arrive, possibly out of
//! order. Results only ever grow while the query and scope stand still;
//! `ensure_valid_cache` clears everything when they change. A flat set
//! of matched item identifiers enforces at-most-once counting and the
//! global result cap.

use vstd::prelude::*;

use vstd::hash_set::HashSetWithView;
use vstd::seq_lib::seq_to_set_distributes_over_add;

use crate::data::{EntryID, Field, FieldID, ItemMeta, ItemUID, TileID};
use crate::timestamp::Interval;

verus! {

/// The most distinct items a search may collect. Which items win once
/// the cap is reached depends on traversal order; reaching the cap is a
/// defined saturation, not an error.
pub const MAX_SEARCH_RESULTS: usize = 100_000;

/// Whether the characters of `needle` occur contiguously in `hay`.
pub open spec fn is_substring(hay: Seq<char>, needle: Seq<char>) -> bool {
    exists|i: int|
        0 <= i && i + needle.len() <= hay.len() && #[trigger] hay.subrange(i, i + needle.len())
            == needle
}

/// Relies on `str::contains` with a string pattern: it returns true
/// exactly when the pattern's characters occur contiguously in the
/// receiver.
#[verifier::external_body]
fn str_contains(hay: &str, needle: &str) -> (r: bool)
    ensures
        r == is_substring(hay@, needle@),
{
    hay.contains(needle)
}

/// The first value stored under `id`, walking the fields in order.
pub open spec fn find_field(fields: Seq<(FieldID, Field)>, id: FieldID) -> Option<Field>
    decreases fields.len(),
{
    if fields.len() == 0 {
        None
    } else if fields[0].0 == id {
        Some(fields[0].1)
    } else {
        find_field(fields.skip(1), id)
    }
}

/// Whether a field value matches the query: substring containment on
/// strings, on a link's display title, and recursively through
/// list-valued fields; other kinds never match.
pub open spec fn field_matches(f: Field, q: Seq<char>) -> bool
    decreases f,
{
    match f {
        Field::String(s) => is_substring(s@, q),
        Field::ItemLink(link) => is_substring(link.title@, q),
        Field::List(fs) => exists|i: int| 0 <= i < fs@.len() && field_matches(#[trigger] fs@[i], q),
        _ => false,
    }
}

/// Whether an item matches the query under the configured search field:
/// the synthetic title field tests the display title, any other field is
/// looked up by identifier.
pub open spec fn item_matches(
    item: ItemMeta,
    search_field: FieldID,
    title_field: FieldID,
    q: Seq<char>,
) -> bool {
    if search_field == title_field {
        is_substring(item.title@, q)
    } else {
        match find_field(item.fields@, search_field) {
            Some(f) => field_matches(f, q),
            None => false,
        }
    }
}

/// What the search remembers of a matched item, for display and
/// scroll-to-result.
#[derive(Debug)]
pub struct SearchCacheItem {
    pub item_uid: ItemUID,
    pub title: String,
    pub interval: Interval,
    pub irow: usize,
}

/// The matches found in one tile of one entry.
#[derive(Debug)]
pub struct TileCache {
    pub tile_id: TileID,
    pub items: Vec<SearchCacheItem>,
}

/// The per-tile match buckets of one entry.
#[derive(Debug)]
pub struct EntryCache {
    pub entry_id: EntryID,
    pub tiles: Vec<TileCache>,
}

/// The item identifiers stored in one tile bucket, in order.
pub open spec fn bucket_uids(items: Seq<SearchCacheItem>) -> Seq<u64> {
    Seq::new(items.len(), |i: int| items[i].item_uid.0)
}

/// The item identifiers stored across one entry's tile buckets.
pub open spec fn entry_uids(tiles: Seq<TileCache>) -> Seq<u64>
    decreases tiles.len(),
{
    if tiles.len() == 0 {
        Seq::empty()
    } else {
        entry_uids(tiles.drop_last()) + bucket_uids(tiles.last().items@)
    }
}

/// The item identifiers stored anywhere in the nested result cache.
pub open spec fn cache_uids(cache: Seq<EntryCache>) -> Seq<u64>
    decreases cache.len(),
{
    if cache.len() == 0 {
        Seq::empty()
    } else {
        cache_uids(cache.drop_last()) + entry_uids(cache.last().tiles@)
    }
}

/// Whether the cache holds a bucket list for the given entry path.
pub open spec fn cache_has_entry(cache: Seq<EntryCache>, path: Seq<i64>) -> bool {
    exists|i: int| 0 <= i < cache.len() && (#[trigger] cache[i]).entry_id@ == path
}

/// Whether the cache holds a bucket for the given entry and tile.
pub open spec fn cache_has_tile(cache: Seq<EntryCache>, path: Seq<i64>, tile_id: TileID) -> bool {
    exists|i: int, j: int|
        0 <= i < cache.len() && (#[trigger] cache[i]).entry_id@ == path && 0 <= j
            < cache[i].tiles@.len() && (#[trigger] cache[i].tiles@[j]).tile_id == tile_id
}

/// Whether the cache holds exactly this display record in the bucket
/// of the given entry and tile.
pub open spec fn cache_has_record(
    cache: Seq<EntryCache>,
    path: Seq<i64>,
    tile_id: TileID,
    record: SearchCacheItem,
) -> bool {
    exists|i: int, j: int, k: int|
        0 <= i < cache.len() && (#[trigger] cache[i]).entry_id@ == path && 0 <= j
            < cache[i].tiles@.len() && (#[trigger] cache[i].tiles@[j]).tile_id == tile_id && 0 <= k
            < cache[i].tiles@[j].items@.len() && (#[trigger] cache[i].tiles@[j].items@[k]) == record
}

/// Every display record the first cache holds, the second holds too,
/// in the bucket of the same entry and tile: the search only ever adds
/// records.
pub open spec fn records_preserved(c0: Seq<EntryCache>, c1: Seq<EntryCache>) -> bool {
    forall|path: Seq<i64>, tile_id: TileID, rec: SearchCacheItem|
        #[trigger] cache_has_record(c0, path, tile_id, rec) ==> cache_has_record(
            c1,
            path,
            tile_id,
            rec,
        )
}

/// An entry the search may cache: a slot path at least three levels
/// deep, so the display tree can group it by node, kind and slot.
pub open spec fn searchable_entry(path: Seq<i64>) -> bool {
    path.len() >= 3 && path[0] >= 0 && path[1] >= 0 && path[2] >= 0
}

/// One level-two group of the display tree: a kind index and the slot
/// indexes under it.
#[derive(Debug)]
pub struct EntryTreeKind {
    pub index: u64,
    pub slots: Vec<u64>,
}

/// One level-one group of the display tree: a node index and the kind
/// groups under it.
#[derive(Debug)]
pub struct EntryTreeNode {
    pub index: u64,
    pub kinds: Vec<EntryTreeKind>,
}

/// Whether the display tree holds the group path (`l0`, `l1`, `l2`).
pub open spec fn tree_has(tree: Seq<EntryTreeNode>, l0: u64, l1: u64, l2: u64) -> bool {
    exists|i: int, j: int|
        0 <= i < tree.len() && (#[trigger] tree[i]).index == l0 && 0 <= j < tree[i].kinds@.len()
            && (#[trigger] tree[i].kinds@[j]).index == l1 && tree[i].kinds@[j].slots@.contains(l2)
}

/// Whether `s2` is `s1` with `extra` spliced in at one position.
pub open spec fn spliced(s1: Seq<u64>, s2: Seq<u64>, extra: Seq<u64>) -> bool {
    exists|a: Seq<u64>, b: Seq<u64>| s1 == #[trigger] (a + b) && s2 == #[trigger] (a + extra + b)
}

proof fn lemma_entry_uids_splice(tiles: Seq<TileCache>, j: int, t2: TileCache, extra: Seq<u64>)
    requires
        0 <= j < tiles.len(),
        spliced(bucket_uids(tiles[j].items@), bucket_uids(t2.items@), extra),
    ensures
        spliced(entry_uids(tiles), entry_uids(tiles.update(j, t2)), extra),
    decreases tiles.len(),
{
    let s2 = tiles.update(j, t2);
    let (a, b) = choose|a: Seq<u64>, b: Seq<u64>|
        bucket_uids(tiles[j].items@) == #[trigger] (a + b) && bucket_uids(t2.items@)
            == #[trigger] (a + extra + b);
    if j == tiles.len() - 1 {
        assert(s2.drop_last() =~= tiles.drop_last());
        let prefix = entry_uids(tiles.drop_last());
        let wa = prefix + a;
        assert(entry_uids(tiles) =~= wa + b);
        assert(entry_uids(s2) =~= wa + extra + b);
    } else {
        let sub = tiles.drop_last();
        assert(sub[j] == tiles[j]);
        lemma_entry_uids_splice(sub, j, t2, extra);
        let (c, d) = choose|c: Seq<u64>, d: Seq<u64>|
            entry_uids(sub) == #[trigger] (c + d) && entry_uids(sub.update(j, t2)) == #[trigger] (c
                + extra + d);
        assert(s2.drop_last() =~= sub.update(j, t2));
        assert(s2.last() == tiles.last());
        let tail = bucket_uids(tiles.last().items@);
        let wd = d + tail;
        assert(entry_uids(tiles) =~= c + wd);
        assert(entry_uids(s2) =~= c + extra + wd);
    }
}

proof fn lemma_cache_uids_splice(cache: Seq<EntryCache>, i: int, e2: EntryCache, extra: Seq<u64>)
    requires
        0 <= i < cache.len(),
        spliced(entry_uids(cache[i].tiles@), entry_uids(e2.tiles@), extra),
    ensures
        spliced(cache_uids(cache), cache_uids(cache.update(i, e2)), extra),
    decreases cache.len(),
{
    let s2 = cache.update(i, e2);
    let (a, b) = choose|a: Seq<u64>, b: Seq<u64>|
        entry_uids(cache[i].tiles@) == #[trigger] (a + b) && entry_uids(e2.tiles@) == #[trigger] (a
            + extra + b);
    if i == cache.len() - 1 {
        assert(s2.drop_last() =~= cache.drop_last());
        let prefix = cache_uids(cache.drop_last());
        let wa = prefix + a;
        assert(cache_uids(cache) =~= wa + b);
        assert(cache_uids(s2) =~= wa + extra + b);
    } else {
        let sub = cache.drop_last();
        assert(sub[i] == cache[i]);
        lemma_cache_uids_splice(sub, i, e2, extra);
        let (c, d) = choose|c: Seq<u64>, d: Seq<u64>|
            cache_uids(sub) == #[trigger] (c + d) && cache_uids(sub.update(i, e2)) == #[trigger] (c
                + extra + d);
        assert(s2.drop_last() =~= sub.update(i, e2));
        assert(s2.last() == cache.last());
        let tail = entry_uids(cache.last().tiles@);
        let wd = d + tail;
        assert(cache_uids(cache) =~= c + wd);
        assert(cache_uids(s2) =~= c + extra + wd);
    }
}

proof fn lemma_spliced_one(s1: Seq<u64>, s2: Seq<u64>, u: u64)
    requires
        spliced(s1, s2, seq![u]),
    ensures
        s2.to_set() == s1.to_set().insert(u),
        s1.no_duplicates() && !s1.contains(u) ==> s2.no_duplicates(),
{
    broadcast use vstd::seq_lib::group_seq_properties;

    let (a, b) = choose|a: Seq<u64>, b: Seq<u64>|
        s1 == #[trigger] (a + b) && s2 == #[trigger] (a + seq![u] + b);
    seq_to_set_distributes_over_add(a, b);
    seq_to_set_distributes_over_add(a + seq![u], b);
    seq_to_set_distributes_over_add(a, seq![u]);
    assert(seq![u].to_set() =~= Set::<u64>::empty().insert(u));
    assert(s2.to_set() =~= s1.to_set().insert(u));
    if s1.no_duplicates() && !s1.contains(u) {
        assert forall|p: int, q: int| 0 <= p < q < s2.len() implies s2[p] != s2[q] by {
            let m = a.len() as int;
            assert(forall|k: int| 0 <= k < s1.len() ==> s1[k] != u);
            assert(forall|k: int| 0 <= k < m ==> s2[k] == s1[k]);
            assert(s2[m] == u);
            assert(forall|k: int| m < k < s2.len() ==> s2[k] == s1[k - 1]);
        }
        assert(s2.no_duplicates());
    }
}

proof fn lemma_spliced_none(s1: Seq<u64>, s2: Seq<u64>)
    requires
        spliced(s1, s2, Seq::<u64>::empty()),
    ensures
        s2 == s1,
{
    let (a, b) = choose|a: Seq<u64>, b: Seq<u64>|
        s1 == #[trigger] (a + b) && s2 == #[trigger] (a + Seq::<u64>::empty() + b);
    assert(a + Seq::<u64>::empty() + b =~= a + b);
}

/// The search engine's state: the current and last-indexed query and
/// scope, the flat set of matched item identifiers, the nested result
/// cache, and the display tree projected from it.
pub struct SearchState {
    /// The identifier of the synthetic title field.
    pub title_field: FieldID,
    pub query: String,
    pub last_query: String,
    pub include_collapsed_entries: bool,
    pub last_include_collapsed_entries: bool,
    pub search_field: FieldID,
    pub last_search_field: FieldID,
    pub last_view_interval: Option<Interval>,
    pub result_set: HashSetWithView<u64>,
    pub result_cache: Vec<EntryCache>,
    pub entry_tree: Vec<EntryTreeNode>,
}

impl SearchState {
    /// The flat set of matched item identifiers.
    pub open spec fn result_set_view(self) -> Set<u64> {
        self.result_set@
    }

    /// The nested result cache.
    pub open spec fn cache_view(self) -> Seq<EntryCache> {
        self.result_cache@
    }

    /// The display tree.
    pub open spec fn tree_view(self) -> Seq<EntryTreeNode> {
        self.entry_tree@
    }

    /// The search cache invariant: every matched identifier sits in
    /// exactly one bucket of the nested cache and in the flat set, the
    /// flat set never exceeds the cap, cached entries are distinct slot
    /// paths with distinct tile buckets, and the display tree groups are
    /// distinct.
    pub open spec fn wf(self) -> bool {
        &&& cache_uids(self.cache_view()).no_duplicates()
        &&& self.result_set_view() == cache_uids(self.cache_view()).to_set()
        &&& self.result_set_view().len() <= MAX_SEARCH_RESULTS
        &&& forall|i: int|
            0 <= i < self.cache_view().len() ==> searchable_entry(
                (#[trigger] self.cache_view()[i]).entry_id@,
            )
        &&& forall|i: int, j: int|
            0 <= i < j < self.cache_view().len() ==> (#[trigger] self.cache_view()[i]).entry_id@ != (
            #[trigger] self.cache_view()[j]).entry_id@
        &&& forall|i: int, j1: int, j2: int|
            0 <= i < self.cache_view().len() && 0 <= j1 < j2 < self.cache_view()[i].tiles@.len()
                ==> (#[trigger] self.cache_view()[i].tiles@[j1]).tile_id != (
            #[trigger] self.cache_view()[i].tiles@[j2]).tile_id
        &&& forall|i: int, j: int|
            0 <= i < j < self.tree_view().len() ==> (#[trigger] self.tree_view()[i]).index != (
            #[trigger] self.tree_view()[j]).index
        &&& forall|i: int, j1: int, j2: int|
            0 <= i < self.tree_view().len() && 0 <= j1 < j2 < self.tree_view()[i].kinds@.len() ==> (
            #[trigger] self.tree_view()[i].kinds@[j1]).index != (
            #[trigger] self.tree_view()[i].kinds@[j2]).index
        &&& forall|i: int, j: int|
            0 <= i < self.tree_view().len() && 0 <= j < self.tree_view()[i].kinds@.len() ==> (
            #[trigger] self.tree_view()[i].kinds@[j]).slots@.no_duplicates()
    }

    /// A fresh search over nothing, with the given synthetic title
    /// field.
    pub fn new(title_id: FieldID) -> (r: SearchState)
        ensures
            r.wf(),
            r.title_field == title_id,
            r.query@ == Seq::<char>::empty(),
            r.last_query@ == Seq::<char>::empty(),
            r.include_collapsed_entries == false,
            r.last_include_collapsed_entries == false,
            r.search_field == title_id,
            r.last_search_field == title_id,
            r.last_view_interval is None,
            r.result_set_view() == Set::<u64>::empty(),
            r.cache_view() == Seq::<EntryCache>::empty(),
            r.tree_view() == Seq::<EntryTreeNode>::empty(),
    {
        let r = SearchState {
            title_field: title_id,
            query: String::new(),
            last_query: String::new(),
            include_collapsed_entries: false,
            last_include_collapsed_entries: false,
            search_field: title_id,
            last_search_field: title_id,
            last_view_interval: None,
            result_set: HashSetWithView::new(),
            result_cache: Vec::new(),
            entry_tree: Vec::new(),
        };
        proof {
            assert(cache_uids(r.cache_view()) =~= Seq::<u64>::empty());
            assert(r.result_set_view() =~= cache_uids(r.cache_view()).to_set());
        }
        r
    }

    /// Forgets every cached result; the query and scope fields stay.
    pub fn clear(&mut self)
        ensures
            final(self).wf(),
            final(self).result_set_view() == Set::<u64>::empty(),
            final(self).cache_view() == Seq::<EntryCache>::empty(),
            final(self).tree_view() == Seq::<EntryTreeNode>::empty(),
            final(self).title_field == old(self).title_field,
            final(self).query == old(self).query,
            final(self).last_query == old(self).last_query,
            final(self).search_field == old(self).search_field,
            final(self).last_search_field == old(self).last_search_field,
            final(self).include_collapsed_entries == old(self).include_collapsed_entries,
            final(self).last_include_collapsed_entries == old(self).last_include_collapsed_entries,
            final(self).last_view_interval == old(self).last_view_interval,
            final(self).last_query == old(self).last_query,
            final(self).include_collapsed_entries == old(self).include_collapsed_entries,
            final(self).last_include_collapsed_entries == old(self).last_include_collapsed_entries,
            final(self).search_field == old(self).search_field,
            final(self).last_search_field == old(self).last_search_field,
            final(self).last_view_interval == old(self).last_view_interval,
    {
        self.result_set.clear();
        self.result_cache.clear();
        self.entry_tree.clear();
        proof {
            assert(cache_uids(self.cache_view()) =~= Seq::<u64>::empty());
            assert(self.result_set_view() =~= cache_uids(self.cache_view()).to_set());
        }
    }

    /// Whether a string matches the current query.
    pub fn is_string_match(&self, s: &str) -> (r: bool)
        ensures
            r == is_substring(s@, self.query@),
    {
        str_contains(s, self.query.as_str())
    }

    /// Whether a field value matches the current query.
    #[verifier::loop_isolation(false)]
    pub fn is_field_match(&self, field: &Field) -> (r: bool)
        ensures
            r == field_matches(*field, self.query@),
        decreases *field,
    {
        match field {
            Field::String(s) => self.is_string_match(s.as_str()),
            Field::ItemLink(link) => self.is_string_match(link.title.as_str()),
            Field::List(fields) => {
                let n = fields.len();
                let mut i: usize = 0;
                while i < n
                    invariant
                        n == fields@.len(),
                        0 <= i <= n,
                        forall|j: int| 0 <= j < i ==> !field_matches(#[trigger] fields@[j], self.query@),
                    decreases n - i,
                {
                    proof {
                        assert(*field == Field::List(*fields));
                        assert(decreases_to!(*field => *fields));
                        assert(decreases_to!(*fields => fields@));
                        assert(decreases_to!(fields@ => fields@[i as int]));
                        assert(decreases_to!(*field => fields@[i as int]));
                    }
                    if self.is_field_match(&fields[i]) {
                        assert(field_matches(fields@[i as int], self.query@));
                        return true;
                    }
                    i += 1;
                }
                false
            },
            _ => false,
        }
    }

    /// Whether an item matches the current query under the configured
    /// search field.
    #[verifier::loop_isolation(false)]
    pub fn is_match(&self, item: &ItemMeta) -> (r: bool)
        ensures
            r == item_matches(*item, self.search_field, self.title_field, self.query@),
    {
        if self.search_field.0 == self.title_field.0 {
            self.is_string_match(self.title_of(item))
        } else {
            let n = item.fields.len();
            proof {
                assert(item.fields@.skip(0) =~= item.fields@);
            }
            let mut i: usize = 0;
            while i < n
                invariant
                    n == item.fields@.len(),
                    0 <= i <= n,
                    find_field(item.fields@, self.search_field) == find_field(
                        item.fields@.skip(i as int),
                        self.search_field,
                    ),
                decreases n - i,
            {
                let ghost suffix = item.fields@.skip(i as int);
                proof {
                    assert(suffix[0] == item.fields@[i as int]);
                    assert(suffix.skip(1) =~= item.fields@.skip(i as int + 1));
                }
                if item.fields[i].0.0 == self.search_field.0 {
                    assert(item.fields@[i as int].0 == self.search_field);
                    assert(find_field(item.fields@, self.search_field) == Some(
                        item.fields@[i as int].1,
                    ));
                    return self.is_field_match(&item.fields[i].1);
                }
                i += 1;
            }
            assert(item.fields@.skip(n as int).len() == 0);
            false
        }
    }

    proof fn lemma_tree_shape_unchanged(self, other: SearchState)
        requires
            other.wf(),
            self.entry_tree@ == other.entry_tree@,
        ensures
            forall|i: int, j: int|
                0 <= i < j < self.tree_view().len() ==> (#[trigger] self.tree_view()[i]).index != (
                #[trigger] self.tree_view()[j]).index,
            forall|i: int, j1: int, j2: int|
                0 <= i < self.tree_view().len() && 0 <= j1 < j2 < self.tree_view()[i].kinds@.len()
                    ==> (#[trigger] self.tree_view()[i].kinds@[j1]).index != (
                #[trigger] self.tree_view()[i].kinds@[j2]).index,
            forall|i: int, j: int|
                0 <= i < self.tree_view().len() && 0 <= j < self.tree_view()[i].kinds@.len() ==> (
                #[trigger] self.tree_view()[i].kinds@[j]).slots@.no_duplicates(),
    {
        assert forall|i: int, j: int|
            0 <= i < j < self.tree_view().len() implies (#[trigger] self.tree_view()[i]).index != (
        #[trigger] self.tree_view()[j]).index by {
            assert(other.tree_view()[i].index != other.tree_view()[j].index);
        }
        assert forall|i: int, j1: int, j2: int|
            0 <= i < self.tree_view().len() && 0 <= j1 < j2
                < self.tree_view()[i].kinds@.len() implies (
        #[trigger] self.tree_view()[i].kinds@[j1]).index != (
        #[trigger] self.tree_view()[i].kinds@[j2]).index by {
            assert(other.tree_view()[i].kinds@[j1].index != other.tree_view()[i].kinds@[j2].index);
        }
        assert forall|i: int, j: int|
            0 <= i < self.tree_view().len() && 0 <= j < self.tree_view()[i].kinds@.len() implies (
        #[trigger] self.tree_view()[i].kinds@[j]).slots@.no_duplicates() by {
            assert(other.tree_view()[i].kinds@[j].slots@.no_duplicates());
        }
    }

    fn title_of<'a>(&self, item: &'a ItemMeta) -> (r: &'a str)
        ensures
            r@ == item.title@,
    {
        item.title.as_str()
    }

    /// Clears every cached result when the query string, the search
    /// field, or the view interval changed, or when the searched scope
    /// shrank by excluding collapsed entries; then re-baselines the
    /// remembered query and scope. Growing the scope keeps the cache:
    /// results only ever grow, so nothing cached can become wrong.
    pub fn ensure_valid_cache(&mut self, view_interval: Interval)
        requires
            old(self).wf(),
        ensures
            final(self).wf(),
            final(self).title_field == old(self).title_field,
            final(self).query == old(self).query,
            final(self).include_collapsed_entries == old(self).include_collapsed_entries,
            final(self).search_field == old(self).search_field,
            final(self).last_query@ == old(self).query@,
            final(self).last_search_field == old(self).search_field,
            final(self).last_include_collapsed_entries == old(self).include_collapsed_entries,
            final(self).last_view_interval == Some(view_interval),
            cache_invalidated(*old(self), view_interval) ==> final(self).result_set_view()
                == Set::<u64>::empty() && final(self).cache_view() == Seq::<EntryCache>::empty()
                && final(self).tree_view() == Seq::<EntryTreeNode>::empty(),
            !cache_invalidated(*old(self), view_interval) ==> final(self).result_set_view() == old(self).result_set_view() && final(self).cache_view() == old(self).cache_view() && final(self).tree_view() == old(self).tree_view(),
    {
        let mut invalidate = false;

        if self.query != self.last_query {
            invalidate = true;
            self.last_query = self.query.clone();
        }
        if self.search_field.0 != self.last_search_field.0 {
            invalidate = true;
            self.last_search_field = self.search_field;
        }
        if self.include_collapsed_entries != self.last_include_collapsed_entries {
            if !self.include_collapsed_entries {
                invalidate = true;
            }
            self.last_include_collapsed_entries = self.include_collapsed_entries;
        }
        let view_changed = match self.last_view_interval {
            Some(last) => last != view_interval,
            None => true,
        };
        if view_changed {
            invalidate = true;
            self.last_view_interval = Some(view_interval);
        }

        if invalidate {
            self.clear();
        } else {
            proof {
                self.lemma_tree_shape_unchanged(*old(self));
                self.lemma_cache_shape_unchanged(*old(self));
            }
        }
    }

    /// Makes sure a bucket list exists for the entry and says whether
    /// the search should descend into it: `false` exactly when the
    /// result cap is already reached.
    pub fn start_entry(&mut self, entry_id: &EntryID) -> (r: bool)
        requires
            old(self).wf(),
            searchable_entry(entry_id@),
        ensures
            final(self).wf(),
            r == (old(self).result_set_view().len() < MAX_SEARCH_RESULTS),
            final(self).result_set_view() == old(self).result_set_view(),
            cache_uids(final(self).cache_view()) == cache_uids(old(self).cache_view()),
            final(self).tree_view() == old(self).tree_view(),
            final(self).title_field == old(self).title_field,
            final(self).query == old(self).query,
            final(self).last_query == old(self).last_query,
            final(self).search_field == old(self).search_field,
            final(self).last_search_field == old(self).last_search_field,
            final(self).include_collapsed_entries == old(self).include_collapsed_entries,
            final(self).last_include_collapsed_entries == old(self).last_include_collapsed_entries,
            final(self).last_view_interval == old(self).last_view_interval,
            r ==> cache_has_entry(final(self).cache_view(), entry_id@),
            !r ==> final(self).result_cache == old(self).result_cache,
            r && cache_has_entry(old(self).cache_view(), entry_id@) ==> final(self).result_cache
                == old(self).result_cache,
            r && !cache_has_entry(old(self).cache_view(), entry_id@) ==> final(self).cache_view().len() == old(self).cache_view().len() + 1 && (forall|k: int|
                0 <= k < old(self).cache_view().len() ==> #[trigger] final(self).cache_view()[k]
                    == old(self).cache_view()[k]) && final(self).cache_view().last().entry_id@
                == entry_id@ && final(self).cache_view().last().tiles@.len() == 0,
            forall|path: Seq<i64>, t: TileID|
                #[trigger] cache_has_tile(final(self).cache_view(), path, t) == cache_has_tile(
                    old(self).cache_view(),
                    path,
                    t,
                ),
            forall|path: Seq<i64>|
                cache_has_entry(old(self).cache_view(), path) ==> cache_has_entry(
                    final(self).cache_view(),
                    path,
                ),
            forall|path: Seq<i64>, t: TileID|
                cache_has_tile(old(self).cache_view(), path, t) ==> cache_has_tile(
                    final(self).cache_view(),
                    path,
                    t,
                ),
            records_preserved(old(self).cache_view(), final(self).cache_view()),
    {
        if self.result_set.len() >= MAX_SEARCH_RESULTS {
            return false;
        }
        match self.entry_pos(entry_id) {
            Some(_) => {},
            None => {
                let ghost cache0 = self.result_cache@;
                let entry = EntryCache { entry_id: entry_id.clone(), tiles: Vec::new() };
                self.result_cache.push(entry);
                proof {
                    let cache2 = self.result_cache@;
                    assert(cache2.drop_last() =~= cache0);
                    assert(entry_uids(entry.tiles@) =~= Seq::<u64>::empty());
                    assert(cache_uids(cache2) =~= cache_uids(cache0));
                    assert(cache2.last().entry_id@ == entry_id@);
                    assert(cache_has_entry(cache2, entry_id@));
                    assert forall|p: int, q: int| 0 <= p < q < cache2.len() implies (
                    #[trigger] cache2[p]).entry_id@ != (#[trigger] cache2[q]).entry_id@ by {
                        if q == cache2.len() - 1 {
                            assert(cache2[p] == cache0[p]);
                            assert(!cache_has_entry(cache0, entry_id@));
                        } else {
                            assert(cache2[p] == cache0[p]);
                            assert(cache2[q] == cache0[q]);
                        }
                    }
                    assert forall|path: Seq<i64>|
                        cache_has_entry(cache0, path) implies cache_has_entry(cache2, path) by {
                        let p = choose|p: int|
                            0 <= p < cache0.len() && (#[trigger] cache0[p]).entry_id@ == path;
                        assert(cache2[p].entry_id@ == path);
                    }
                    assert forall|path: Seq<i64>, t: TileID|
                        cache_has_tile(cache0, path, t) implies cache_has_tile(cache2, path, t) by {
                        let (p, q) = choose|p: int, q: int|
                            0 <= p < cache0.len() && (#[trigger] cache0[p]).entry_id@ == path && 0
                                <= q < cache0[p].tiles@.len() && (
                            #[trigger] cache0[p].tiles@[q]).tile_id == t;
                        assert(cache2[p].entry_id@ == path);
                        assert(cache2[p].tiles@[q].tile_id == t);
                    }
                    assert forall|path: Seq<i64>, tile_id: TileID, rec: SearchCacheItem|
                        #[trigger] cache_has_record(cache0, path, tile_id, rec) implies cache_has_record(
                        cache2,
                        path,
                        tile_id,
                        rec,
                    ) by {
                        let (p, q, w) = choose|p: int, q: int, w: int|
                            0 <= p < cache0.len() && (#[trigger] cache0[p]).entry_id@ == path && 0
                                <= q < cache0[p].tiles@.len() && (
                            #[trigger] cache0[p].tiles@[q]).tile_id == tile_id && 0 <= w < cache0[
                                p
                            ].tiles@[q].items@.len() && (
                            #[trigger] cache0[p].tiles@[q].items@[w]) == rec;
                        assert(cache2[p].entry_id@ == path);
                        assert(cache2[p].tiles@[q].tile_id == tile_id);
                        assert(cache2[p].tiles@[q].items@[w] == rec);
                    }
                    assert forall|path: Seq<i64>, t: TileID|
                        cache_has_tile(cache2, path, t) implies cache_has_tile(cache0, path, t) by {
                        let (p, q) = choose|p: int, q: int|
                            0 <= p < cache2.len() && (#[trigger] cache2[p]).entry_id@ == path && 0
                                <= q < cache2[p].tiles@.len() && (
                            #[trigger] cache2[p].tiles@[q]).tile_id == t;
                        assert(p < cache0.len());
                        assert(cache0[p].entry_id@ == path);
                        assert(cache0[p].tiles@[q].tile_id == t);
                    }
                }
            },
        }
        proof {
            self.lemma_tree_shape_unchanged(*old(self));
        }
        true
    }

    /// Says whether the tile still needs searching: `false` when the
    /// result cap is reached or this (entry, tile) pair was already
    /// indexed. A fresh pair gets an empty bucket, so indexing each tile
    /// happens at most once however often the search is re-run.
    pub fn start_tile(&mut self, entry_id: &EntryID, tile_id: TileID) -> (r: bool)
        requires
            old(self).wf(),
            cache_has_entry(old(self).cache_view(), entry_id@),
        ensures
            final(self).wf(),
            r == (old(self).result_set_view().len() < MAX_SEARCH_RESULTS && !cache_has_tile(
                old(self).cache_view(),
                entry_id@,
                tile_id,
            )),
            final(self).result_set_view() == old(self).result_set_view(),
            cache_uids(final(self).cache_view()) == cache_uids(old(self).cache_view()),
            final(self).tree_view() == old(self).tree_view(),
            final(self).title_field == old(self).title_field,
            final(self).query == old(self).query,
            final(self).last_query == old(self).last_query,
            final(self).search_field == old(self).search_field,
            final(self).last_search_field == old(self).last_search_field,
            final(self).include_collapsed_entries == old(self).include_collapsed_entries,
            final(self).last_include_collapsed_entries == old(self).last_include_collapsed_entries,
            final(self).last_view_interval == old(self).last_view_interval,
            r ==> cache_has_entry(final(self).cache_view(), entry_id@) && cache_has_tile(
                final(self).cache_view(),
                entry_id@,
                tile_id,
            ),
            !r ==> final(self).result_cache == old(self).result_cache,
            forall|path: Seq<i64>, t: TileID|
                !(path == entry_id@ && t == tile_id) ==> #[trigger] cache_has_tile(
                    final(self).cache_view(),
                    path,
                    t,
                ) == cache_has_tile(old(self).cache_view(), path, t),
            r ==> exists|i: int|
                0 <= i < old(self).cache_view().len() && (#[trigger] old(self).cache_view()[i]).entry_id@ == entry_id@ && final(self).cache_view().len() == old(self).cache_view().len() && (forall|p: int|
                    0 <= p < old(self).cache_view().len() && p != i
                        ==> #[trigger] final(self).cache_view()[p] == old(self).cache_view()[p])
                    && final(self).cache_view()[i].entry_id == old(self).cache_view()[i].entry_id
                    && final(self).cache_view()[i].tiles@.len() == old(self).cache_view()[i].tiles@.len() + 1 && (forall|q: int|
                    0 <= q < old(self).cache_view()[i].tiles@.len()
                        ==> #[trigger] final(self).cache_view()[i].tiles@[q] == old(self).cache_view()[i].tiles@[q]) && final(self).cache_view()[i].tiles@.last().tile_id
                    == tile_id && final(self).cache_view()[i].tiles@.last().items@.len() == 0,
            forall|path: Seq<i64>|
                cache_has_entry(old(self).cache_view(), path) ==> cache_has_entry(
                    final(self).cache_view(),
                    path,
                ),
            forall|path: Seq<i64>, t: TileID|
                cache_has_tile(old(self).cache_view(), path, t) ==> cache_has_tile(
                    final(self).cache_view(),
                    path,
                    t,
                ),
            records_preserved(old(self).cache_view(), final(self).cache_view()),
    {
        if self.result_set.len() >= MAX_SEARCH_RESULTS {
            return false;
        }
        let i = match self.entry_pos(entry_id) {
            Some(i) => i,
            None => {
                proof {
                    assert(false);
                }
                return false;
            },
        };
        match self.tile_pos(i, tile_id) {
            Some(_) => {
                proof {
                    lemma_tile_pos_has(self.result_cache@, i as int, entry_id@, tile_id);
                    self.lemma_tree_shape_unchanged(*old(self));
                }
                false
            },
            None => {
                let ghost cache0 = self.result_cache@;
                let bucket = TileCache { tile_id, items: Vec::new() };
                let entry = &mut self.result_cache[i];
                let ghost tiles0 = entry.tiles@;
                entry.tiles.push(bucket);
                proof {
                    let e2 = *final(entry);
                    assert(e2.tiles@ =~= tiles0.push(bucket));
                    assert(e2.tiles@.drop_last() =~= tiles0);
                    assert(bucket_uids(bucket.items@) =~= Seq::<u64>::empty());
                    assert(entry_uids(e2.tiles@) =~= entry_uids(tiles0));
                    assert(self.result_cache@ =~= cache0.update(i as int, e2));
                    lemma_cache_uids_same(cache0, i as int, e2);
                    assert(!cache_has_tile(cache0, entry_id@, tile_id)) by {
                        lemma_tile_missing(cache0, i as int, entry_id@, tile_id);
                    }
                    assert forall|j1: int, j2: int| 0 <= j1 < j2 < e2.tiles@.len() implies (
                    #[trigger] e2.tiles@[j1]).tile_id != (#[trigger] e2.tiles@[j2]).tile_id by {
                        if j2 == e2.tiles@.len() - 1 {
                            assert(e2.tiles@[j1] == tiles0[j1]);
                            assert(e2.tiles@[j2].tile_id == tile_id);
                        } else {
                            assert(e2.tiles@[j1] == tiles0[j1]);
                            assert(e2.tiles@[j2] == tiles0[j2]);
                        }
                    }
                    lemma_update_preserves_shape(cache0, i as int, e2);
                    assert(cache_has_tile(self.result_cache@, entry_id@, tile_id)) by {
                        let j = e2.tiles@.len() - 1;
                        assert(self.result_cache@[i as int].entry_id@ == entry_id@);
                        assert(self.result_cache@[i as int].tiles@[j].tile_id == tile_id);
                    }
                    assert forall|path: Seq<i64>, tid: TileID, rec: SearchCacheItem|
                        #[trigger] cache_has_record(cache0, path, tid, rec) implies cache_has_record(
                        self.result_cache@,
                        path,
                        tid,
                        rec,
                    ) by {
                        let (p, q, w) = choose|p: int, q: int, w: int|
                            0 <= p < cache0.len() && (#[trigger] cache0[p]).entry_id@ == path && 0
                                <= q < cache0[p].tiles@.len() && (
                            #[trigger] cache0[p].tiles@[q]).tile_id == tid && 0 <= w < cache0[
                                p
                            ].tiles@[q].items@.len() && (
                            #[trigger] cache0[p].tiles@[q].items@[w]) == rec;
                        if p == i {
                            assert(self.result_cache@[p].tiles@[q] == tiles0[q]);
                        } else {
                            assert(self.result_cache@[p] == cache0[p]);
                        }
                        assert(self.result_cache@[p].entry_id@ == path);
                        assert(self.result_cache@[p].tiles@[q].tile_id == tid);
                        assert(self.result_cache@[p].tiles@[q].items@[w] == rec);
                    }
                    assert(self.result_set@ == cache_uids(self.result_cache@).to_set());
                    self.lemma_tree_shape_unchanged(*old(self));
                }
                true
            },
        }
    }

    /// Records a matched item: its identifier joins the flat set unless
    /// it is already counted or the cap is reached, and on first
    /// insertion a display record lands in the (entry, tile) bucket.
    pub fn insert(&mut self, entry_id: &EntryID, tile_id: TileID, irow: usize, item: &ItemMeta)
        requires
            old(self).wf(),
            cache_has_entry(old(self).cache_view(), entry_id@),
            cache_has_tile(old(self).cache_view(), entry_id@, tile_id),
        ensures
            final(self).wf(),
            final(self).result_set_view() == if old(self).result_set_view().len()
                < MAX_SEARCH_RESULTS && !old(self).result_set_view().contains(item.item_uid.0) {
                old(self).result_set_view().insert(item.item_uid.0)
            } else {
                old(self).result_set_view()
            },
            old(self).result_set_view().subset_of(final(self).result_set_view()),
            old(self).result_set_view().len() < MAX_SEARCH_RESULTS && !old(self).result_set_view().contains(item.item_uid.0) ==> cache_has_record(
                final(self).cache_view(),
                entry_id@,
                tile_id,
                (SearchCacheItem {
                    item_uid: item.item_uid,
                    title: item.title,
                    interval: item.original_interval,
                    irow,
                }),
            ),
            final(self).tree_view() == old(self).tree_view(),
            final(self).title_field == old(self).title_field,
            final(self).query == old(self).query,
            final(self).last_query == old(self).last_query,
            final(self).search_field == old(self).search_field,
            final(self).last_search_field == old(self).last_search_field,
            final(self).include_collapsed_entries == old(self).include_collapsed_entries,
            final(self).last_include_collapsed_entries == old(self).last_include_collapsed_entries,
            final(self).last_view_interval == old(self).last_view_interval,
            !(old(self).result_set_view().len() < MAX_SEARCH_RESULTS && !old(self).result_set_view().contains(item.item_uid.0)) ==> final(self).result_cache == old(self).result_cache,
            forall|path: Seq<i64>, t: TileID|
                #[trigger] cache_has_tile(final(self).cache_view(), path, t) == cache_has_tile(
                    old(self).cache_view(),
                    path,
                    t,
                ),
            old(self).result_set_view().len() < MAX_SEARCH_RESULTS && !old(self).result_set_view().contains(item.item_uid.0) ==> exists|i: int, j: int|
                0 <= i < old(self).cache_view().len() && (#[trigger] old(self).cache_view()[i]).entry_id@ == entry_id@ && 0 <= j < old(self).cache_view()[i].tiles@.len() && (#[trigger] old(self).cache_view()[i].tiles@[j]).tile_id == tile_id && final(self).cache_view().len()
                    == old(self).cache_view().len() && (forall|p: int|
                    0 <= p < old(self).cache_view().len() && p != i
                        ==> #[trigger] final(self).cache_view()[p] == old(self).cache_view()[p])
                    && final(self).cache_view()[i].entry_id == old(self).cache_view()[i].entry_id
                    && final(self).cache_view()[i].tiles@.len() == old(self).cache_view()[i].tiles@.len() && (forall|q: int|
                    0 <= q < old(self).cache_view()[i].tiles@.len() && q != j
                        ==> #[trigger] final(self).cache_view()[i].tiles@[q] == old(self).cache_view()[i].tiles@[q]) && final(self).cache_view()[i].tiles@[j].tile_id
                    == old(self).cache_view()[i].tiles@[j].tile_id && final(self).cache_view()[i].tiles@[j].items@ == old(self).cache_view()[i].tiles@[j].items@.push(
                    (SearchCacheItem {
                        item_uid: item.item_uid,
                        title: item.title,
                        interval: item.original_interval,
                        irow,
                    }),
                ),
            forall|path: Seq<i64>|
                cache_has_entry(old(self).cache_view(), path) ==> cache_has_entry(
                    final(self).cache_view(),
                    path,
                ),
            forall|path: Seq<i64>, t: TileID|
                cache_has_tile(old(self).cache_view(), path, t) ==> cache_has_tile(
                    final(self).cache_view(),
                    path,
                    t,
                ),
            records_preserved(old(self).cache_view(), final(self).cache_view()),
    {
        if self.result_set.len() >= MAX_SEARCH_RESULTS {
            proof {
                self.lemma_tree_shape_unchanged(*old(self));
            }
            return ;
        }
        let ghost set0 = self.result_set@;
        let ghost cache0 = self.result_cache@;
        if self.result_set.insert(item.item_uid.0) {
            let i = match self.entry_pos(entry_id) {
                Some(i) => i,
                None => {
                    proof {
                        assert(false);
                    }
                    return ;
                },
            };
            let j = match self.tile_pos(i, tile_id) {
                Some(j) => j,
                None => {
                    proof {
                        lemma_tile_missing(cache0, i as int, entry_id@, tile_id);
                        assert(false);
                    }
                    return ;
                },
            };
            let record = SearchCacheItem {
                item_uid: item.item_uid,
                title: item.title.clone(),
                interval: item.original_interval,
                irow,
            };
            let entry = &mut self.result_cache[i];
            let ghost tiles0 = entry.tiles@;
            let bucket = &mut entry.tiles[j];
            let ghost items0 = bucket.items@;
            bucket.items.push(record);
            proof {
                let u = item.item_uid.0;
                let b2 = *final(bucket);
                let e2 = *final(entry);
                assert(b2.items@ =~= items0.push(record));
                assert(bucket_uids(b2.items@) =~= bucket_uids(items0) + seq![u]);
                assert(bucket_uids(items0) + seq![u] =~= bucket_uids(items0) + seq![u]
                    + Seq::<u64>::empty());
                assert(bucket_uids(items0) =~= bucket_uids(items0) + Seq::<u64>::empty());
                assert(spliced(bucket_uids(items0), bucket_uids(b2.items@), seq![u]));
                assert(e2.tiles@ =~= tiles0.update(j as int, b2));
                lemma_entry_uids_splice(tiles0, j as int, b2, seq![u]);
                assert(self.result_cache@ =~= cache0.update(i as int, e2));
                lemma_cache_uids_splice(cache0, i as int, e2, seq![u]);
                lemma_spliced_one(cache_uids(cache0), cache_uids(self.result_cache@), u);
                assert(!cache_uids(cache0).contains(u)) by {
                    assert(!set0.contains(u));
                    assert(set0 == cache_uids(cache0).to_set());
                    if cache_uids(cache0).contains(u) {
                        assert(cache_uids(cache0).to_set().contains(u));
                    }
                }
                assert(self.result_set@ =~= cache_uids(self.result_cache@).to_set());
                assert(set0.len() < MAX_SEARCH_RESULTS && !set0.contains(u));
                assert(self.result_set@.len() == set0.len() + 1);
                assert(e2.tiles@.len() == tiles0.len());
                assert forall|q: int| 0 <= q < tiles0.len() implies (
                #[trigger] e2.tiles@[q]).tile_id == tiles0[q].tile_id by {
                    if q != j {
                        assert(e2.tiles@[q] == tiles0[q]);
                    }
                }
                assert forall|j1: int, j2: int| 0 <= j1 < j2 < e2.tiles@.len() implies (
                #[trigger] e2.tiles@[j1]).tile_id != (#[trigger] e2.tiles@[j2]).tile_id by {
                    assert(e2.tiles@[j1].tile_id == tiles0[j1].tile_id);
                    assert(e2.tiles@[j2].tile_id == tiles0[j2].tile_id);
                }
                lemma_update_preserves_shape(cache0, i as int, e2);
                assert forall|path: Seq<i64>, tid: TileID, rec: SearchCacheItem|
                    #[trigger] cache_has_record(cache0, path, tid, rec) implies cache_has_record(
                    self.result_cache@,
                    path,
                    tid,
                    rec,
                ) by {
                    let (p, q, w) = choose|p: int, q: int, w: int|
                        0 <= p < cache0.len() && (#[trigger] cache0[p]).entry_id@ == path && 0 <= q
                            < cache0[p].tiles@.len() && (#[trigger] cache0[p].tiles@[q]).tile_id
                            == tid && 0 <= w < cache0[p].tiles@[q].items@.len() && (
                        #[trigger] cache0[p].tiles@[q].items@[w]) == rec;
                    if p == i {
                        if q == j {
                            assert(self.result_cache@[p].tiles@[q].items@[w] == items0[w]);
                        } else {
                            assert(self.result_cache@[p].tiles@[q] == tiles0[q]);
                        }
                    } else {
                        assert(self.result_cache@[p] == cache0[p]);
                    }
                    assert(self.result_cache@[p].entry_id@ == path);
                    assert(self.result_cache@[p].tiles@[q].tile_id == tid);
                    assert(self.result_cache@[p].tiles@[q].items@[w] == rec);
                }
                assert(cache_has_record(
                    self.result_cache@,
                    entry_id@,
                    tile_id,
                    record,
                )) by {
                    let k = b2.items@.len() - 1;
                    assert(self.result_cache@[i as int].entry_id@ == entry_id@);
                    assert(self.result_cache@[i as int].tiles@[j as int].tile_id == tile_id);
                    assert(self.result_cache@[i as int].tiles@[j as int].items@[k] == record);
                }
            }
        } else {
            proof {
                assert(set0.contains(item.item_uid.0));
                assert(self.result_set@ =~= set0);
            }
        }
        proof {
            self.lemma_tree_shape_unchanged(*old(self));
        }
    }

    /// Rebuilds the display grouping from the result cache: the node,
    /// kind and slot index prefix of every entry with at least one
    /// cached match joins the tree. Groups already present stay.
    pub fn build_entry_tree(&mut self)
        requires
            old(self).wf(),
        ensures
            final(self).wf(),
            final(self).result_set_view() == old(self).result_set_view(),
            final(self).cache_view() == old(self).cache_view(),
            final(self).title_field == old(self).title_field,
            final(self).query == old(self).query,
            final(self).last_query == old(self).last_query,
            final(self).search_field == old(self).search_field,
            final(self).last_search_field == old(self).last_search_field,
            final(self).include_collapsed_entries == old(self).include_collapsed_entries,
            final(self).last_include_collapsed_entries == old(self).last_include_collapsed_entries,
            final(self).last_view_interval == old(self).last_view_interval,
            forall|a: u64, b: u64, c: u64|
                #[trigger] tree_has(final(self).tree_view(), a, b, c) <==> (tree_has(
                    old(self).tree_view(),
                    a,
                    b,
                    c,
                ) || cache_group_present(old(self).cache_view(), a, b, c)),
    {
        let ghost tree0 = self.entry_tree@;
        let ghost cache = self.result_cache@;
        let n = self.result_cache.len();
        let mut i: usize = 0;
        while i < n
            invariant
                self.wf(),
                n == self.cache_view().len(),
                0 <= i <= n,
                self.result_set@ == old(self).result_set@,
                self.result_cache@ == cache,
                self.title_field == old(self).title_field,
                self.query == old(self).query,
                self.last_query == old(self).last_query,
                self.search_field == old(self).search_field,
                self.last_search_field == old(self).last_search_field,
                self.include_collapsed_entries == old(self).include_collapsed_entries,
                self.last_include_collapsed_entries == old(self).last_include_collapsed_entries,
                self.last_view_interval == old(self).last_view_interval,
                cache == old(self).cache_view(),
                tree0 == old(self).tree_view(),
                forall|a: u64, b: u64, c: u64|
                    #[trigger] tree_has(self.tree_view(), a, b, c) <==> (tree_has(tree0, a, b, c)
                        || exists|k: int|
                        0 <= k < i && entry_group_is(#[trigger] cache[k], a, b, c)),
            decreases n - i,
        {
            let mut nonempty = false;
            let tiles = &self.result_cache[i].tiles;
            let m = tiles.len();
            let mut t: usize = 0;
            while t < m
                invariant
                    m == tiles@.len(),
                    0 <= t <= m,
                    nonempty == exists|q: int|
                        0 <= q < t && (#[trigger] tiles@[q]).items@.len() > 0,
                decreases m - t,
            {
                if tiles[t].items.len() > 0 {
                    nonempty = true;
                }
                t += 1;
            }
            proof {
                lemma_entry_uids_nonempty(tiles@);
            }
            if nonempty {
                let entry_ref = &self.result_cache[i];
                let l0 = match entry_ref.entry_id.slot_index(0) {
                    Some(v) => v,
                    None => {
                        proof {
                            assert(false);
                        }
                        0
                    },
                };
                let l1 = match entry_ref.entry_id.slot_index(1) {
                    Some(v) => v,
                    None => {
                        proof {
                            assert(false);
                        }
                        0
                    },
                };
                let l2 = match entry_ref.entry_id.slot_index(2) {
                    Some(v) => v,
                    None => {
                        proof {
                            assert(false);
                        }
                        0
                    },
                };
                let ghost treeb = self.entry_tree@;
                self.tree_insert(l0, l1, l2);
                proof {
                    assert(entry_group_is(cache[i as int], l0, l1, l2));
                    assert forall|a: u64, b: u64, c: u64| #[trigger]
                        tree_has(self.tree_view(), a, b, c) <==> (tree_has(tree0, a, b, c)
                            || exists|k: int|
                            0 <= k < i + 1 && entry_group_is(#[trigger] cache[k], a, b, c)) by {
                        if tree_has(self.tree_view(), a, b, c) {
                            if a == l0 && b == l1 && c == l2 {
                                assert(0 <= i < i + 1 && entry_group_is(
                                    cache[i as int],
                                    a,
                                    b,
                                    c,
                                ));
                            } else {
                                assert(tree_has(treeb, a, b, c));
                                if !tree_has(tree0, a, b, c) {
                                    let k = choose|k: int|
                                        0 <= k < i && entry_group_is(
                                            #[trigger] cache[k],
                                            a,
                                            b,
                                            c,
                                        );
                                    assert(0 <= k < i + 1 && entry_group_is(cache[k], a, b, c));
                                }
                            }
                        }
                        if tree_has(tree0, a, b, c) {
                            assert(tree_has(treeb, a, b, c));
                            assert(tree_has(self.tree_view(), a, b, c));
                        }
                        if exists|k: int|
                            0 <= k < i + 1 && entry_group_is(#[trigger] cache[k], a, b, c) {
                            let k = choose|k: int|
                                0 <= k < i + 1 && entry_group_is(#[trigger] cache[k], a, b, c);
                            if k == i {
                                assert(a == l0 && b == l1 && c == l2);
                                assert(tree_has(self.tree_view(), a, b, c));
                            } else {
                                assert(0 <= k < i && entry_group_is(cache[k], a, b, c));
                                assert(tree_has(treeb, a, b, c));
                                assert(tree_has(self.tree_view(), a, b, c));
                            }
                        }
                    }
                }
            } else {
                proof {
                    assert(entry_uids(tiles@).len() == 0);
                    assert forall|a: u64, b: u64, c: u64| #[trigger]
                        tree_has(self.tree_view(), a, b, c) <==> (tree_has(tree0, a, b, c)
                            || exists|k: int|
                            0 <= k < i + 1 && entry_group_is(#[trigger] cache[k], a, b, c)) by {
                        if exists|k: int|
                            0 <= k < i + 1 && entry_group_is(#[trigger] cache[k], a, b, c) {
                            let k = choose|k: int|
                                0 <= k < i + 1 && entry_group_is(#[trigger] cache[k], a, b, c);
                            assert(k < i);
                        }
                    }
                }
            }
            i += 1;
        }
    }

    /// Adds the group (`l0`, `l1`, `l2`) to the display tree if it is
    /// not there yet.
    fn tree_insert(&mut self, l0: u64, l1: u64, l2: u64)
        requires
            old(self).wf(),
        ensures
            final(self).wf(),
            final(self).result_set == old(self).result_set,
            final(self).result_cache == old(self).result_cache,
            final(self).title_field == old(self).title_field,
            final(self).query == old(self).query,
            final(self).last_query == old(self).last_query,
            final(self).search_field == old(self).search_field,
            final(self).last_search_field == old(self).last_search_field,
            final(self).include_collapsed_entries == old(self).include_collapsed_entries,
            final(self).last_include_collapsed_entries == old(self).last_include_collapsed_entries,
            final(self).last_view_interval == old(self).last_view_interval,
            forall|a: u64, b: u64, c: u64|
                #[trigger] tree_has(final(self).tree_view(), a, b, c) <==> (tree_has(
                    old(self).tree_view(),
                    a,
                    b,
                    c,
                ) || (a == l0 && b == l1 && c == l2)),
    {
        let ghost tree0 = self.entry_tree@;
        let pos = self.tree_node_pos(l0);
        match pos {
            None => {
                proof {
                    assert(pos is None);
                    assert(forall|p: int|
                        0 <= p < self.tree_view().len() ==> (#[trigger] self.tree_view()[p]).index
                            != l0);
                    assert(forall|p: int|
                        0 <= p < tree0.len() ==> (#[trigger] tree0[p]).index != l0);
                }
                let kind = EntryTreeKind { index: l1, slots: vec_one(l2) };
                let node = EntryTreeNode { index: l0, kinds: vec_one_kind(kind) };
                self.entry_tree.push(node);
                proof {
                    let tree2 = self.entry_tree@;
                    assert(tree2.last().index == l0);
                    assert(tree2.last().kinds@.len() == 1);
                    assert(tree2.last().kinds@[0].index == l1);
                    assert(tree2.last().kinds@[0].slots@ =~= seq![l2]);
                    assert(tree2.last().kinds@[0].slots@[0] == l2);
                    assert(tree2.last().kinds@[0].slots@.contains(l2));
                    assert(tree_has(tree2, l0, l1, l2));
                    assert forall|a: u64, b: u64, c: u64| #[trigger]
                        tree_has(tree2, a, b, c) <==> (tree_has(tree0, a, b, c) || (a == l0 && b
                            == l1 && c == l2)) by {
                        if tree_has(tree2, a, b, c) {
                            let (p, q) = choose|p: int, q: int|
                                0 <= p < tree2.len() && (#[trigger] tree2[p]).index == a && 0 <= q
                                    < tree2[p].kinds@.len() && (#[trigger] tree2[p].kinds@[q]).index
                                    == b && tree2[p].kinds@[q].slots@.contains(c);
                            if p < tree0.len() {
                                assert(tree2[p] == tree0[p]);
                                assert(tree_has(tree0, a, b, c));
                            } else {
                                assert(q == 0);
                                assert(a == l0 && b == l1 && c == l2);
                            }
                        }
                        if tree_has(tree0, a, b, c) {
                            let (p, q) = choose|p: int, q: int|
                                0 <= p < tree0.len() && (#[trigger] tree0[p]).index == a && 0 <= q
                                    < tree0[p].kinds@.len() && (#[trigger] tree0[p].kinds@[q]).index
                                    == b && tree0[p].kinds@[q].slots@.contains(c);
                            assert(tree2[p] == tree0[p]);
                            assert(tree_has(tree2, a, b, c));
                        }
                    }
                    assert forall|p: int, q: int| 0 <= p < q < tree2.len() implies (
                    #[trigger] tree2[p]).index != (#[trigger] tree2[q]).index by {
                        if q == tree2.len() - 1 {
                            assert(tree2[p] == tree0[p]);
                            assert(tree0[p].index != l0);
                        } else {
                            assert(tree2[p] == tree0[p]);
                            assert(tree2[q] == tree0[q]);
                        }
                    }
                    assert forall|p: int, q1: int, q2: int|
                        0 <= p < tree2.len() && 0 <= q1 < q2 < tree2[p].kinds@.len() implies (
                    #[trigger] tree2[p].kinds@[q1]).index != (
                    #[trigger] tree2[p].kinds@[q2]).index by {
                        if p < tree0.len() {
                            assert(tree2[p] == tree0[p]);
                        }
                    }
                    assert forall|p: int, q: int|
                        0 <= p < tree2.len() && 0 <= q < tree2[p].kinds@.len() implies (
                    #[trigger] tree2[p].kinds@[q]).slots@.no_duplicates() by {
                        if p < tree0.len() {
                            assert(tree2[p] == tree0[p]);
                        } else {
                            assert(tree2[p].kinds@[q].slots@ =~= seq![l2]);
                        }
                    }
                }
            },
            Some(p0) => {
                self.tree_insert_kind(p0, l0, l1, l2);
            },
        }
    }

    /// The position of the node group with index `l0`, if present.
    fn tree_node_pos(&self, l0: u64) -> (r: Option<usize>)
        ensures
            match r {
                Some(p) => p < self.tree_view().len() && self.tree_view()[p as int].index == l0,
                None => forall|p: int|
                    0 <= p < self.tree_view().len() ==> (#[trigger] self.tree_view()[p]).index
                        != l0,
            },
    {
        let n = self.entry_tree.len();
        let mut p: usize = 0;
        while p < n
            invariant
                n == self.tree_view().len(),
                0 <= p <= n,
                forall|q: int| 0 <= q < p ==> (#[trigger] self.tree_view()[q]).index != l0,
            decreases n - p,
        {
            if self.entry_tree[p].index == l0 {
                return Some(p);
            }
            p += 1;
        }
        None
    }

    /// Adds slot `l2` under kind `l1` of the node group at position
    /// `p0`, creating the kind group if needed.
    fn tree_insert_kind(&mut self, p0: usize, l0: u64, l1: u64, l2: u64)
        requires
            old(self).wf(),
            p0 < old(self).tree_view().len(),
            old(self).tree_view()[p0 as int].index == l0,
        ensures
            final(self).wf(),
            final(self).result_set == old(self).result_set,
            final(self).result_cache == old(self).result_cache,
            final(self).title_field == old(self).title_field,
            final(self).query == old(self).query,
            final(self).last_query == old(self).last_query,
            final(self).search_field == old(self).search_field,
            final(self).last_search_field == old(self).last_search_field,
            final(self).include_collapsed_entries == old(self).include_collapsed_entries,
            final(self).last_include_collapsed_entries == old(self).last_include_collapsed_entries,
            final(self).last_view_interval == old(self).last_view_interval,
            forall|a: u64, b: u64, c: u64|
                #[trigger] tree_has(final(self).tree_view(), a, b, c) <==> (tree_has(
                    old(self).tree_view(),
                    a,
                    b,
                    c,
                ) || (a == l0 && b == l1 && c == l2)),
    {
        let ghost tree0 = self.entry_tree@;
        let kind_pos = self.tree_kind_pos(p0, l1);
        match kind_pos {
            None => {
                let kind = EntryTreeKind { index: l1, slots: vec_one(l2) };
                let node = &mut self.entry_tree[p0];
                let ghost kinds0 = node.kinds@;
                node.kinds.push(kind);
                proof {
                    let n2 = *final(node);
                    let tree2 = self.entry_tree@;
                    assert(tree2 =~= tree0.update(p0 as int, n2));
                    assert(n2.kinds@ =~= kinds0.push(kind));
                    self.lemma_cache_shape_unchanged(*old(self));
                    assert(n2.kinds@.last().slots@ =~= seq![l2]);
                    assert(n2.kinds@.last().slots@[0] == l2);
                    assert(n2.kinds@.last().slots@.contains(l2));
                    assert(tree_has(tree2, l0, l1, l2)) by {
                        let q2 = n2.kinds@.len() - 1;
                        assert(tree2[p0 as int].index == l0);
                        assert(tree2[p0 as int].kinds@[q2].index == l1);
                        assert(tree2[p0 as int].kinds@[q2].slots@.contains(l2));
                    }
                    assert forall|a: u64, b: u64, c: u64| #[trigger]
                        tree_has(tree2, a, b, c) <==> (tree_has(tree0, a, b, c) || (a == l0 && b
                            == l1 && c == l2)) by {
                        if tree_has(tree2, a, b, c) {
                            let (p, r) = choose|p: int, r: int|
                                0 <= p < tree2.len() && (#[trigger] tree2[p]).index == a && 0 <= r
                                    < tree2[p].kinds@.len() && (#[trigger] tree2[p].kinds@[r]).index
                                    == b && tree2[p].kinds@[r].slots@.contains(c);
                            if p != p0 {
                                assert(tree2[p] == tree0[p]);
                                assert(tree_has(tree0, a, b, c));
                            } else if r < kinds0.len() {
                                assert(tree2[p].kinds@[r] == tree0[p].kinds@[r]);
                                assert(tree_has(tree0, a, b, c));
                            } else {
                                assert(b == l1 && c == l2 && a == l0);
                            }
                        }
                        if tree_has(tree0, a, b, c) {
                            let (p, r) = choose|p: int, r: int|
                                0 <= p < tree0.len() && (#[trigger] tree0[p]).index == a && 0 <= r
                                    < tree0[p].kinds@.len() && (#[trigger] tree0[p].kinds@[r]).index
                                    == b && tree0[p].kinds@[r].slots@.contains(c);
                            if p != p0 {
                                assert(tree2[p] == tree0[p]);
                            } else {
                                assert(tree2[p].kinds@[r] == tree0[p].kinds@[r]);
                            }
                            assert(tree_has(tree2, a, b, c));
                        }
                    }
                    assert forall|p: int, r: int| 0 <= p < r < tree2.len() implies (
                    #[trigger] tree2[p]).index != (#[trigger] tree2[r]).index by {
                        assert(tree2[p].index == tree0[p].index);
                        assert(tree2[r].index == tree0[r].index);
                    }
                    assert forall|p: int, r1: int, r2: int|
                        0 <= p < tree2.len() && 0 <= r1 < r2 < tree2[p].kinds@.len() implies (
                    #[trigger] tree2[p].kinds@[r1]).index != (
                    #[trigger] tree2[p].kinds@[r2]).index by {
                        if p != p0 {
                            assert(tree2[p] == tree0[p]);
                        } else {
                            if r2 == n2.kinds@.len() - 1 {
                                assert(tree2[p].kinds@[r1] == kinds0[r1]);
                                assert(kinds0[r1].index != l1);
                            } else {
                                assert(tree2[p].kinds@[r1] == kinds0[r1]);
                                assert(tree2[p].kinds@[r2] == kinds0[r2]);
                            }
                        }
                    }
                    assert forall|p: int, r: int|
                        0 <= p < tree2.len() && 0 <= r < tree2[p].kinds@.len() implies (
                    #[trigger] tree2[p].kinds@[r]).slots@.no_duplicates() by {
                        if p != p0 {
                            assert(tree2[p] == tree0[p]);
                        } else if r < kinds0.len() {
                            assert(tree2[p].kinds@[r] == kinds0[r]);
                        } else {
                            assert(tree2[p].kinds@[r].slots@ =~= seq![l2]);
                        }
                    }
                }
            },
            Some(q0) => {
                self.tree_insert_slot(p0, q0, l0, l1, l2);
            },
        }
    }

    /// Adds slot `l2` to the kind group at (`p0`, `q0`) if it is not
    /// there yet.
    fn tree_insert_slot(&mut self, p0: usize, q0: usize, l0: u64, l1: u64, l2: u64)
        requires
            old(self).wf(),
            p0 < old(self).tree_view().len(),
            old(self).tree_view()[p0 as int].index == l0,
            q0 < old(self).tree_view()[p0 as int].kinds@.len(),
            old(self).tree_view()[p0 as int].kinds@[q0 as int].index == l1,
        ensures
            final(self).wf(),
            final(self).result_set == old(self).result_set,
            final(self).result_cache == old(self).result_cache,
            final(self).title_field == old(self).title_field,
            final(self).query == old(self).query,
            final(self).last_query == old(self).last_query,
            final(self).search_field == old(self).search_field,
            final(self).last_search_field == old(self).last_search_field,
            final(self).include_collapsed_entries == old(self).include_collapsed_entries,
            final(self).last_include_collapsed_entries == old(self).last_include_collapsed_entries,
            final(self).last_view_interval == old(self).last_view_interval,
            forall|a: u64, b: u64, c: u64|
                #[trigger] tree_has(final(self).tree_view(), a, b, c) <==> (tree_has(
                    old(self).tree_view(),
                    a,
                    b,
                    c,
                ) || (a == l0 && b == l1 && c == l2)),
    {
        let ghost tree0 = self.entry_tree@;
        if vec_contains_u64(&self.entry_tree[p0].kinds[q0].slots, l2) {
            proof {
                assert(tree_has(tree0, l0, l1, l2)) by {
                    assert(tree0[p0 as int].index == l0);
                    assert(tree0[p0 as int].kinds@[q0 as int].index == l1);
                    assert(tree0[p0 as int].kinds@[q0 as int].slots@.contains(l2));
                }
            }
            return ;
        }
        let node = &mut self.entry_tree[p0];
        let ghost kinds0 = node.kinds@;
        let kind = &mut node.kinds[q0];
        let ghost slots0 = kind.slots@;
        kind.slots.push(l2);
        proof {
            let k2 = *final(kind);
            let n2 = *final(node);
            let tree2 = self.entry_tree@;
            assert(k2.slots@ =~= slots0.push(l2));
            assert(n2.kinds@ =~= kinds0.update(q0 as int, k2));
            assert(tree2 =~= tree0.update(p0 as int, n2));
            self.lemma_cache_shape_unchanged(*old(self));
            assert(!slots0.contains(l2));
            assert(k2.slots@[k2.slots@.len() - 1] == l2);
            assert(k2.slots@.contains(l2));
            assert(tree_has(tree2, l0, l1, l2)) by {
                assert(tree2[p0 as int].index == l0);
                assert(tree2[p0 as int].kinds@[q0 as int].index == l1);
                assert(tree2[p0 as int].kinds@[q0 as int].slots@.contains(l2));
            }
            assert forall|a: u64, b: u64, c: u64| #[trigger]
                tree_has(tree2, a, b, c) <==> (tree_has(tree0, a, b, c) || (a == l0 && b == l1 && c
                    == l2)) by {
                if tree_has(tree2, a, b, c) {
                    let (p, r) = choose|p: int, r: int|
                        0 <= p < tree2.len() && (#[trigger] tree2[p]).index == a && 0 <= r < tree2[
                            p
                        ].kinds@.len() && (#[trigger] tree2[p].kinds@[r]).index == b
                            && tree2[p].kinds@[r].slots@.contains(c);
                    if p != p0 {
                        assert(tree2[p] == tree0[p]);
                        assert(tree_has(tree0, a, b, c));
                    } else if r != q0 {
                        assert(tree2[p].kinds@[r] == tree0[p].kinds@[r]);
                        assert(tree_has(tree0, a, b, c));
                    } else {
                        assert(a == l0 && b == l1);
                        if c != l2 {
                            assert(slots0.contains(c)) by {
                                let w = choose|w: int| 0 <= w < k2.slots@.len() && k2.slots@[w] == c;
                                assert(w < slots0.len());
                            }
                            assert(tree_has(tree0, a, b, c));
                        }
                    }
                }
                if tree_has(tree0, a, b, c) {
                    let (p, r) = choose|p: int, r: int|
                        0 <= p < tree0.len() && (#[trigger] tree0[p]).index == a && 0 <= r < tree0[
                            p
                        ].kinds@.len() && (#[trigger] tree0[p].kinds@[r]).index == b
                            && tree0[p].kinds@[r].slots@.contains(c);
                    if p != p0 {
                        assert(tree2[p] == tree0[p]);
                    } else if r != q0 {
                        assert(tree2[p].kinds@[r] == tree0[p].kinds@[r]);
                    } else {
                        assert(slots0.contains(c));
                        let w = choose|w: int| 0 <= w < slots0.len() && slots0[w] == c;
                        assert(k2.slots@[w] == c);
                        assert(k2.slots@.contains(c));
                    }
                    assert(tree_has(tree2, a, b, c));
                }
            }
            assert forall|p: int, r: int| 0 <= p < r < tree2.len() implies (
            #[trigger] tree2[p]).index != (#[trigger] tree2[r]).index by {
                assert(tree2[p].index == tree0[p].index);
                assert(tree2[r].index == tree0[r].index);
            }
            assert forall|p: int, r1: int, r2: int|
                0 <= p < tree2.len() && 0 <= r1 < r2 < tree2[p].kinds@.len() implies (
            #[trigger] tree2[p].kinds@[r1]).index != (#[trigger] tree2[p].kinds@[r2]).index by {
                if p != p0 {
                    assert(tree2[p] == tree0[p]);
                } else {
                    assert(tree2[p].kinds@[r1].index == tree0[p].kinds@[r1].index);
                    assert(tree2[p].kinds@[r2].index == tree0[p].kinds@[r2].index);
                }
            }
            assert forall|p: int, r: int|
                0 <= p < tree2.len() && 0 <= r < tree2[p].kinds@.len() implies (
            #[trigger] tree2[p].kinds@[r]).slots@.no_duplicates() by {
                if p != p0 {
                    assert(tree2[p] == tree0[p]);
                } else if r != q0 {
                    assert(tree2[p].kinds@[r] == tree0[p].kinds@[r]);
                } else {
                    assert(slots0.no_duplicates());
                    assert(!slots0.contains(l2));
                    assert forall|w1: int, w2: int| 0 <= w1 < w2 < k2.slots@.len() implies
                        k2.slots@[w1] != k2.slots@[w2] by {
                        if w2 == k2.slots@.len() - 1 {
                            assert(k2.slots@[w1] == slots0[w1]);
                            if k2.slots@[w1] == l2 {
                                assert(slots0.contains(l2));
                            }
                        } else {
                            assert(k2.slots@[w1] == slots0[w1]);
                            assert(k2.slots@[w2] == slots0[w2]);
                        }
                    }
                }
            }
        }
    }

    /// Carries the cache-related parts of the invariant over from a
    /// state whose caches this one shares.
    proof fn lemma_cache_shape_unchanged(self, other: SearchState)
        requires
            other.wf(),
            self.result_cache@ == other.result_cache@,
            self.result_set@ == other.result_set@,
        ensures
            cache_uids(self.cache_view()).no_duplicates(),
            self.result_set_view() == cache_uids(self.cache_view()).to_set(),
            self.result_set_view().len() <= MAX_SEARCH_RESULTS,
            forall|i: int|
                0 <= i < self.cache_view().len() ==> searchable_entry(
                    (#[trigger] self.cache_view()[i]).entry_id@,
                ),
            forall|i: int, j: int|
                0 <= i < j < self.cache_view().len() ==> (#[trigger] self.cache_view()[
                    i
                ]).entry_id@ != (#[trigger] self.cache_view()[j]).entry_id@,
            forall|i: int, j1: int, j2: int|
                0 <= i < self.cache_view().len() && 0 <= j1 < j2 < self.cache_view()[
                    i
                ].tiles@.len() ==> (#[trigger] self.cache_view()[i].tiles@[j1]).tile_id != (
                #[trigger] self.cache_view()[i].tiles@[j2]).tile_id,
    {
        assert forall|i: int| 0 <= i < self.cache_view().len() implies searchable_entry(
            (#[trigger] self.cache_view()[i]).entry_id@,
        ) by {
            assert(searchable_entry(other.cache_view()[i].entry_id@));
        }
        assert forall|i: int, j: int| 0 <= i < j < self.cache_view().len() implies (
        #[trigger] self.cache_view()[i]).entry_id@ != (#[trigger] self.cache_view()[j]).entry_id@ by {
            assert(other.cache_view()[i].entry_id@ != other.cache_view()[j].entry_id@);
        }
        assert forall|i: int, j1: int, j2: int|
            0 <= i < self.cache_view().len() && 0 <= j1 < j2 < self.cache_view()[
                i
            ].tiles@.len() implies (#[trigger] self.cache_view()[i].tiles@[j1]).tile_id != (
        #[trigger] self.cache_view()[i].tiles@[j2]).tile_id by {
            assert(other.cache_view()[i].tiles@[j1].tile_id != other.cache_view()[i].tiles@[j2].tile_id);
        }
    }

    /// The number of distinct items matched so far.
    pub fn result_count(&self) -> (r: usize)
        ensures
            r == self.result_set_view().len(),
    {
        self.result_set.len()
    }

    /// Whether the given item is among the matches.
    pub fn result_contains(&self, item_uid: ItemUID) -> (r: bool)
        ensures
            r == self.result_set_view().contains(item_uid.0),
    {
        self.result_set.contains(&item_uid.0)
    }

    /// The position of the kind group with index `l1` under the node
    /// group at `p0`, if present.
    fn tree_kind_pos(&self, p0: usize, l1: u64) -> (r: Option<usize>)
        requires
            p0 < self.tree_view().len(),
        ensures
            match r {
                Some(q) => q < self.tree_view()[p0 as int].kinds@.len() && self.tree_view()[
                    p0 as int
                ].kinds@[q as int].index == l1,
                None => forall|q: int|
                    0 <= q < self.tree_view()[p0 as int].kinds@.len() ==> (
                    #[trigger] self.tree_view()[p0 as int].kinds@[q]).index != l1,
            },
    {
        let kinds = &self.entry_tree[p0].kinds;
        let n = kinds.len();
        let mut q: usize = 0;
        while q < n
            invariant
                kinds@ == self.tree_view()[p0 as int].kinds@,
                p0 < self.tree_view().len(),
                n == kinds@.len(),
                0 <= q <= n,
                forall|r: int| 0 <= r < q ==> (#[trigger] kinds@[r]).index != l1,
            decreases n - q,
        {
            if kinds[q].index == l1 {
                return Some(q);
            }
            q += 1;
        }
        None
    }

    /// The position of the entry's bucket list, if one exists.
    fn entry_pos(&self, entry_id: &EntryID) -> (r: Option<usize>)
        ensures
            match r {
                Some(i) => i < self.cache_view().len() && self.cache_view()[i as int].entry_id@
                    == entry_id@,
                None => !cache_has_entry(self.cache_view(), entry_id@),
            },
    {
        let n = self.result_cache.len();
        let mut i: usize = 0;
        while i < n
            invariant
                n == self.cache_view().len(),
                0 <= i <= n,
                forall|k: int| 0 <= k < i ==> (#[trigger] self.cache_view()[k]).entry_id@ != entry_id@,
            decreases n - i,
        {
            if self.result_cache[i].entry_id == *entry_id {
                return Some(i);
            }
            i += 1;
        }
        None
    }

    /// The position of the tile's bucket within entry `i`, if one
    /// exists.
    fn tile_pos(&self, i: usize, tile_id: TileID) -> (r: Option<usize>)
        requires
            i < self.cache_view().len(),
        ensures
            match r {
                Some(j) => j < self.cache_view()[i as int].tiles@.len() && self.cache_view()[
                    i as int
                ].tiles@[j as int].tile_id == tile_id,
                None => forall|q: int|
                    0 <= q < self.cache_view()[i as int].tiles@.len() ==> (
                    #[trigger] self.cache_view()[i as int].tiles@[q]).tile_id != tile_id,
            },
    {
        let tiles = &self.result_cache[i].tiles;
        let n = tiles.len();
        let mut j: usize = 0;
        while j < n
            invariant
                tiles@ == self.cache_view()[i as int].tiles@,
                i < self.cache_view().len(),
                n == tiles@.len(),
                0 <= j <= n,
                forall|q: int| 0 <= q < j ==> (#[trigger] tiles@[q]).tile_id != tile_id,
            decreases n - j,
        {
            if tiles[j].tile_id == tile_id {
                return Some(j);
            }
            j += 1;
        }
        None
    }
}

/// Whether entry `e` holds at least one cached match and its path
/// starts with the slot indexes (`a`, `b`, `c`).
pub open spec fn entry_group_is(e: EntryCache, a: u64, b: u64, c: u64) -> bool {
    entry_uids(e.tiles@).len() > 0 && e.entry_id@.len() >= 3 && e.entry_id@[0] >= 0
        && e.entry_id@[1] >= 0 && e.entry_id@[2] >= 0 && a == e.entry_id@[0] as u64 && b
        == e.entry_id@[1] as u64 && c == e.entry_id@[2] as u64
}

/// Whether some entry with at least one cached match sits under the
/// group path (`a`, `b`, `c`).
pub open spec fn cache_group_present(cache: Seq<EntryCache>, a: u64, b: u64, c: u64) -> bool {
    exists|k: int| 0 <= k < cache.len() && entry_group_is(#[trigger] cache[k], a, b, c)
}

/// An entry's buckets hold an identifier exactly when some bucket is
/// non-empty.
proof fn lemma_entry_uids_nonempty(tiles: Seq<TileCache>)
    ensures
        entry_uids(tiles).len() > 0 <==> exists|q: int|
            0 <= q < tiles.len() && (#[trigger] tiles[q]).items@.len() > 0,
    decreases tiles.len(),
{
    if tiles.len() > 0 {
        lemma_entry_uids_nonempty(tiles.drop_last());
        if entry_uids(tiles).len() > 0 {
            if bucket_uids(tiles.last().items@).len() > 0 {
                assert(tiles[tiles.len() - 1].items@.len() > 0);
            } else {
                let q = choose|q: int|
                    0 <= q < tiles.drop_last().len() && (
                    #[trigger] tiles.drop_last()[q]).items@.len() > 0;
                assert(tiles[q].items@.len() > 0);
            }
        }
        if exists|q: int| 0 <= q < tiles.len() && (#[trigger] tiles[q]).items@.len() > 0 {
            let q = choose|q: int| 0 <= q < tiles.len() && (#[trigger] tiles[q]).items@.len() > 0;
            if q == tiles.len() - 1 {
                assert(bucket_uids(tiles.last().items@).len() > 0);
            } else {
                assert(tiles.drop_last()[q].items@.len() > 0);
            }
        }
    }
}

/// A vector holding the one element `x`.
fn vec_one(x: u64) -> (r: Vec<u64>)
    ensures
        r@ == seq![x],
{
    let mut r: Vec<u64> = Vec::new();
    r.push(x);
    proof {
        assert(r@ =~= seq![x]);
    }
    r
}

/// A vector holding the one kind group `k`.
fn vec_one_kind(k: EntryTreeKind) -> (r: Vec<EntryTreeKind>)
    ensures
        r@.len() == 1,
        r@[0] == k,
{
    let mut r: Vec<EntryTreeKind> = Vec::new();
    r.push(k);
    r
}

/// Whether some element of `v` equals `x`.
fn vec_contains_u64(v: &Vec<u64>, x: u64) -> (r: bool)
    ensures
        r == v@.contains(x),
{
    let n = v.len();
    let mut i: usize = 0;
    while i < n
        invariant
            n == v@.len(),
            0 <= i <= n,
            forall|j: int| 0 <= j < i ==> v@[j] != x,
        decreases n - i,
    {
        if v[i] == x {
            return true;
        }
        i += 1;
    }
    false
}

/// The result cap holds in every reachable search state: the flat set
/// of matched items, and with it every count the search reports, never
/// exceeds `MAX_SEARCH_RESULTS`, and each matched identifier sits in
/// exactly one bucket of the nested cache.
pub proof fn lemma_search_cap(s: SearchState)
    requires
        s.wf(),
    ensures
        s.result_set_view().len() <= MAX_SEARCH_RESULTS,
        cache_uids(s.cache_view()).len() == s.result_set_view().len(),
{
    cache_uids(s.cache_view()).unique_seq_to_set();
}

/// Whether the query, search field, scope, or view interval moved in a
/// way that can strand stale results, so the cache must be cleared.
pub open spec fn cache_invalidated(s: SearchState, view_interval: Interval) -> bool {
    ||| s.query@ != s.last_query@
    ||| s.search_field != s.last_search_field
    ||| (s.include_collapsed_entries != s.last_include_collapsed_entries
        && !s.include_collapsed_entries)
    ||| s.last_view_interval != Some(view_interval)
}

/// In a cache whose entries are pairwise distinct, finding the tile
/// under the entry at position `i` is the only way the cache can hold
/// that (entry, tile) pair.
proof fn lemma_tile_missing(cache: Seq<EntryCache>, i: int, path: Seq<i64>, tile_id: TileID)
    requires
        0 <= i < cache.len(),
        cache[i].entry_id@ == path,
        forall|p: int, q: int|
            0 <= p < q < cache.len() ==> (#[trigger] cache[p]).entry_id@ != (
            #[trigger] cache[q]).entry_id@,
        forall|q: int|
            0 <= q < cache[i].tiles@.len() ==> (#[trigger] cache[i].tiles@[q]).tile_id != tile_id,
    ensures
        !cache_has_tile(cache, path, tile_id),
{
    if cache_has_tile(cache, path, tile_id) {
        let (p, q) = choose|p: int, q: int|
            0 <= p < cache.len() && (#[trigger] cache[p]).entry_id@ == path && 0 <= q
                < cache[p].tiles@.len() && (#[trigger] cache[p].tiles@[q]).tile_id == tile_id;
        assert(p == i);
    }
}

/// Finding the tile under the entry at position `i` shows the cache
/// holds that (entry, tile) pair.
proof fn lemma_tile_pos_has(cache: Seq<EntryCache>, i: int, path: Seq<i64>, tile_id: TileID)
    requires
        0 <= i < cache.len(),
        cache[i].entry_id@ == path,
        exists|q: int|
            0 <= q < cache[i].tiles@.len() && (#[trigger] cache[i].tiles@[q]).tile_id == tile_id,
    ensures
        cache_has_tile(cache, path, tile_id),
{
    let q = choose|q: int|
        0 <= q < cache[i].tiles@.len() && (#[trigger] cache[i].tiles@[q]).tile_id == tile_id;
    assert(0 <= i < cache.len() && cache[i].entry_id@ == path && 0 <= q < cache[i].tiles@.len()
        && cache[i].tiles@[q].tile_id == tile_id);
}

/// Replacing the entry at position `i` with one that keeps its path and
/// extends its tile buckets in place preserves the cache's shape: entry
/// paths stay distinct and searchable, tile buckets stay distinct, and
/// every (entry, tile) pair the cache held is still there.
proof fn lemma_update_preserves_shape(cache0: Seq<EntryCache>, i: int, e2: EntryCache)
    requires
        0 <= i < cache0.len(),
        e2.entry_id@ == cache0[i].entry_id@,
        e2.tiles@.len() >= cache0[i].tiles@.len(),
        forall|q: int|
            0 <= q < cache0[i].tiles@.len() ==> (#[trigger] e2.tiles@[q]).tile_id == cache0[
                i
            ].tiles@[q].tile_id,
        forall|k: int|
            0 <= k < cache0.len() ==> searchable_entry((#[trigger] cache0[k]).entry_id@),
        forall|p: int, q: int|
            0 <= p < q < cache0.len() ==> (#[trigger] cache0[p]).entry_id@ != (
            #[trigger] cache0[q]).entry_id@,
        forall|k: int, j1: int, j2: int|
            0 <= k < cache0.len() && 0 <= j1 < j2 < cache0[k].tiles@.len() ==> (
            #[trigger] cache0[k].tiles@[j1]).tile_id != (#[trigger] cache0[k].tiles@[j2]).tile_id,
        forall|j1: int, j2: int|
            0 <= j1 < j2 < e2.tiles@.len() ==> (#[trigger] e2.tiles@[j1]).tile_id != (
            #[trigger] e2.tiles@[j2]).tile_id,
    ensures
        forall|k: int|
            0 <= k < cache0.update(i, e2).len() ==> searchable_entry(
                (#[trigger] cache0.update(i, e2)[k]).entry_id@,
            ),
        forall|p: int, q: int|
            0 <= p < q < cache0.update(i, e2).len() ==> (#[trigger] cache0.update(
                i,
                e2,
            )[p]).entry_id@ != (#[trigger] cache0.update(i, e2)[q]).entry_id@,
        forall|k: int, j1: int, j2: int|
            0 <= k < cache0.update(i, e2).len() && 0 <= j1 < j2 < cache0.update(
                i,
                e2,
            )[k].tiles@.len() ==> (#[trigger] cache0.update(i, e2)[k].tiles@[j1]).tile_id != (
            #[trigger] cache0.update(i, e2)[k].tiles@[j2]).tile_id,
        forall|path: Seq<i64>|
            cache_has_entry(cache0, path) ==> cache_has_entry(cache0.update(i, e2), path),
        forall|path: Seq<i64>, t: TileID|
            cache_has_tile(cache0, path, t) ==> cache_has_tile(cache0.update(i, e2), path, t),
{
    let cache2 = cache0.update(i, e2);
    assert forall|k: int| 0 <= k < cache2.len() implies searchable_entry(
        (#[trigger] cache2[k]).entry_id@,
    ) by {
        if k != i {
            assert(cache2[k] == cache0[k]);
        }
    }
    assert forall|p: int, q: int| 0 <= p < q < cache2.len() implies (
    #[trigger] cache2[p]).entry_id@ != (#[trigger] cache2[q]).entry_id@ by {
        assert(cache2[p].entry_id@ == cache0[p].entry_id@);
        assert(cache2[q].entry_id@ == cache0[q].entry_id@);
    }
    assert forall|k: int, j1: int, j2: int|
        0 <= k < cache2.len() && 0 <= j1 < j2 < cache2[k].tiles@.len() implies (
    #[trigger] cache2[k].tiles@[j1]).tile_id != (#[trigger] cache2[k].tiles@[j2]).tile_id by {
        if k != i {
            assert(cache2[k] == cache0[k]);
        }
    }
    assert forall|path: Seq<i64>| cache_has_entry(cache0, path) implies cache_has_entry(
        cache2,
        path,
    ) by {
        let p = choose|p: int| 0 <= p < cache0.len() && (#[trigger] cache0[p]).entry_id@ == path;
        assert(cache2[p].entry_id@ == path);
    }
    assert forall|path: Seq<i64>, t: TileID| cache_has_tile(cache0, path, t) implies cache_has_tile(
        cache2,
        path,
        t,
    ) by {
        let (p, q) = choose|p: int, q: int|
            0 <= p < cache0.len() && (#[trigger] cache0[p]).entry_id@ == path && 0 <= q < cache0[
                p
            ].tiles@.len() && (#[trigger] cache0[p].tiles@[q]).tile_id == t;
        assert(cache2[p].entry_id@ == path);
        assert(cache2[p].tiles@[q].tile_id == t);
    }
}

proof fn lemma_cache_uids_same(cache: Seq<EntryCache>, i: int, e2: EntryCache)
    requires
        0 <= i < cache.len(),
        entry_uids(e2.tiles@) == entry_uids(cache[i].tiles@),
    ensures
        cache_uids(cache.update(i, e2)) == cache_uids(cache),
    decreases cache.len(),
{
    let empty = Seq::<u64>::empty();
    assert(entry_uids(cache[i].tiles@) =~= entry_uids(cache[i].tiles@) + empty);
    assert(entry_uids(e2.tiles@) =~= entry_uids(cache[i].tiles@) + empty + empty);
    assert(spliced(entry_uids(cache[i].tiles@), entry_uids(e2.tiles@), empty));
    lemma_cache_uids_splice(cache, i, e2, empty);
    lemma_spliced_none(cache_uids(cache), cache_uids(cache.update(i, e2)));
}

} // verus!
