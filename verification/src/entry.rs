//! The per-window entry tree and its tile caches.
//!
//! Each tree node owns its own tile caches: a summary holds utilization
//! tiles, a slot holds item tiles and, fetched lazily, item metadata
//! tiles. A cache maps a tile address to `None` while the request is in
//! flight and to the payload once it arrived; caches are cleared whole
//! whenever the view interval changes, since tile selection depends on
//! it. Results arriving for entries that no longer interest anyone are
//! silently discarded by the lookup that fails to find them.

use vstd::prelude::*;

use crate::config::Config;
use crate::data::{Color, EntryID, EntryInfo, SlotMetaTile, SlotMetaTileData, SlotTile,
    SlotTileData, SummaryTile, SummaryTileData, TileID, TileSet};
use crate::deferred_data::DeferredDataSource;
use crate::search::{cache_has_entry, cache_has_tile, item_matches, searchable_entry, EntryCache,
    SearchCacheItem, SearchState, MAX_SEARCH_RESULTS};
use crate::timestamp::Interval;

verus! {

/// How many rows a collapsed slot shows.
pub const UNEXPANDED_ROWS: u64 = 2;

/// A utilization plot node: the summary child of a panel.
pub struct Summary {
    pub entry_id: EntryID,
    pub color: Color,
    pub tiles: Vec<(TileID, Option<SummaryTileData>)>,
    pub last_view_interval: Option<Interval>,
}

/// A processor, channel or memory row: the leaf level of the tree.
pub struct Slot {
    pub entry_id: EntryID,
    pub short_name: String,
    pub long_name: String,
    pub expanded: bool,
    pub max_rows: u64,
    pub tile_ids: Vec<TileID>,
    pub tiles: Vec<(TileID, Option<SlotTileData>)>,
    pub tile_metas: Vec<(TileID, Option<SlotMetaTileData>)>,
    pub last_view_interval: Option<Interval>,
}

/// A kind-level panel: the slots of one kind under one node.
pub struct KindPanel {
    pub entry_id: EntryID,
    pub short_name: String,
    pub long_name: String,
    pub expanded: bool,
    pub summary: Option<Summary>,
    pub slots: Vec<Slot>,
}

/// A node-level panel: the kinds of one node of the machine.
pub struct NodePanel {
    pub entry_id: EntryID,
    pub short_name: String,
    pub long_name: String,
    pub expanded: bool,
    pub summary: Option<Summary>,
    pub kinds: Vec<KindPanel>,
}

/// The root panel: all nodes of the machine.
pub struct RootPanel {
    pub entry_id: EntryID,
    pub short_name: String,
    pub long_name: String,
    pub expanded: bool,
    pub summary: Option<Summary>,
    pub nodes: Vec<NodePanel>,
}

/// Whether a schema node is a slot leaf.
pub open spec fn is_slot_leaf(info: EntryInfo) -> bool {
    info matches EntryInfo::Slot { .. }
}

/// Whether a schema node's summary child, if any, is a summary leaf.
pub open spec fn summary_schema_ok(s: Option<Box<EntryInfo>>) -> bool {
    match s {
        Some(b) => (*b) matches EntryInfo::Summary { .. },
        None => true,
    }
}

/// Whether a panel's summary child, if any, is well-formed and carries
/// the panel's path extended by the sentinel.
pub open spec fn summary_child_ok(s: Option<Summary>, parent: Seq<i64>) -> bool {
    match s {
        Some(sm) => sm.wf() && sm.entry_id@ == parent.push(-1i64),
        None => true,
    }
}

/// The keys of an association list of tile caches are pairwise
/// distinct.
pub open spec fn tile_keys_unique<T>(tiles: Seq<(TileID, Option<T>)>) -> bool {
    forall|k1: int, k2: int|
        0 <= k1 < k2 < tiles.len() ==> (#[trigger] tiles[k1]).0 != (#[trigger] tiles[k2]).0
}

/// Whether the cache has a bucket under this tile address.
pub open spec fn has_bucket<T>(tiles: Seq<(TileID, Option<T>)>, tile_id: TileID) -> bool {
    exists|k: int| 0 <= k < tiles.len() && (#[trigger] tiles[k]).0 == tile_id
}

/// A bucket survives any extension of the cache.
proof fn lemma_bucket_persists<T>(
    a: Seq<(TileID, Option<T>)>,
    b: Seq<(TileID, Option<T>)>,
    tile_id: TileID,
)
    requires
        a.is_prefix_of(b),
        has_bucket(a, tile_id),
    ensures
        has_bucket(b, tile_id),
{
    let k = choose|k: int| 0 <= k < a.len() && (#[trigger] a[k]).0 == tile_id;
    assert(b[k] == a.subrange(0, a.len() as int)[k]);
    assert(b[k].0 == tile_id);
}

/// Every matching item of a metadata payload is counted in the search
/// results — unless the result cap is reached, which freezes the count.
pub open spec fn meta_tile_indexed(
    search: SearchState,
    data: SlotMetaTileData,
    search_field: crate::data::FieldID,
    title_field: crate::data::FieldID,
    q: Seq<char>,
) -> bool {
    ||| search.result_set_view().len() == MAX_SEARCH_RESULTS
    ||| forall|r: int, x: int|
        0 <= r < data.items@.len() && 0 <= x < data.items@[r]@.len() && item_matches(
            #[trigger] data.items@[r]@[x],
            search_field,
            title_field,
            q,
        ) ==> search.result_set_view().contains(data.items@[r]@[x].item_uid.0)
}

/// Every arrived metadata tile of the slot that was not indexed under
/// `cache0` has all its matching items counted.
pub open spec fn slot_fresh_tiles_indexed(
    search: SearchState,
    cache0: Seq<EntryCache>,
    slot: Slot,
    search_field: crate::data::FieldID,
    title_field: crate::data::FieldID,
    q: Seq<char>,
) -> bool {
    forall|t: int|
        0 <= t < slot.tile_metas@.len() && (#[trigger] slot.tile_metas@[t]).1 is Some
            && !cache_has_tile(cache0, slot.entry_id@, slot.tile_metas@[t].0) ==> meta_tile_indexed(
            search,
            slot.tile_metas@[t].1->Some_0,
            search_field,
            title_field,
            q,
        )
}

/// Being indexed survives any later growth of the results: matched
/// items stay matched, and a reached cap stays reached.
proof fn lemma_meta_indexed_persists(
    s1: SearchState,
    s2: SearchState,
    data: SlotMetaTileData,
    search_field: crate::data::FieldID,
    title_field: crate::data::FieldID,
    q: Seq<char>,
)
    requires
        meta_tile_indexed(s1, data, search_field, title_field, q),
        s1.result_set_view().subset_of(s2.result_set_view()),
        s1.result_set_view().len() == MAX_SEARCH_RESULTS ==> s2.result_set_view()
            == s1.result_set_view(),
    ensures
        meta_tile_indexed(s2, data, search_field, title_field, q),
{
}

/// An attributed, recorded result survives any later growth of the
/// results: the identifier stays counted and the record stays in its
/// bucket.
proof fn lemma_tile_recorded_persists(
    s1: SearchState,
    s2: SearchState,
    path: Seq<i64>,
    tile_id: TileID,
    data: SlotMetaTileData,
    uid: u64,
    search_field: crate::data::FieldID,
    title_field: crate::data::FieldID,
    q: Seq<char>,
)
    requires
        tile_new_result_recorded(s1, path, tile_id, data, uid, search_field, title_field, q),
        crate::search::records_preserved(s1.cache_view(), s2.cache_view()),
    ensures
        tile_new_result_recorded(s2, path, tile_id, data, uid, search_field, title_field, q),
{
    let (r, x) = choose|r: int, x: int|
        0 <= r < data.items@.len() && 0 <= x < data.items@[r]@.len() && (
        #[trigger] data.items@[r]@[x]).item_uid.0 == uid && item_matches(
            data.items@[r]@[x],
            search_field,
            title_field,
            q,
        ) && crate::search::cache_has_record(
            s1.cache_view(),
            path,
            tile_id,
            (SearchCacheItem {
                item_uid: data.items@[r]@[x].item_uid,
                title: data.items@[r]@[x].title,
                interval: data.items@[r]@[x].original_interval,
                irow: (data.items@.len() - 1 - r) as usize,
            }),
        );
    assert(crate::search::cache_has_record(
        s2.cache_view(),
        path,
        tile_id,
        (SearchCacheItem {
            item_uid: data.items@[r]@[x].item_uid,
            title: data.items@[r]@[x].title,
            interval: data.items@[r]@[x].original_interval,
            irow: (data.items@.len() - 1 - r) as usize,
        }),
    ));
}

/// `slot_fresh_tiles_indexed` survives any later growth of the
/// results.
proof fn lemma_slot_indexed_persists(
    s1: SearchState,
    s2: SearchState,
    cache0: Seq<EntryCache>,
    slot: Slot,
    search_field: crate::data::FieldID,
    title_field: crate::data::FieldID,
    q: Seq<char>,
)
    requires
        slot_fresh_tiles_indexed(s1, cache0, slot, search_field, title_field, q),
        s1.result_set_view().subset_of(s2.result_set_view()),
        s1.result_set_view().len() == MAX_SEARCH_RESULTS ==> s2.result_set_view()
            == s1.result_set_view(),
    ensures
        slot_fresh_tiles_indexed(s2, cache0, slot, search_field, title_field, q),
{
    assert forall|t: int|
        0 <= t < slot.tile_metas@.len() && (#[trigger] slot.tile_metas@[t]).1 is Some
            && !cache_has_tile(cache0, slot.entry_id@, slot.tile_metas@[t].0) implies meta_tile_indexed(
        s2,
        slot.tile_metas@[t].1->Some_0,
        search_field,
        title_field,
        q,
    ) by {
        lemma_meta_indexed_persists(
            s1,
            s2,
            slot.tile_metas@[t].1->Some_0,
            search_field,
            title_field,
            q,
        );
    }
}

/// Freshness only reads the buckets of the slot's own entry, so any
/// cache agreeing there gives the same statement.
proof fn lemma_fresh_base_equiv(
    search: SearchState,
    c1: Seq<EntryCache>,
    c2: Seq<EntryCache>,
    slot: Slot,
    search_field: crate::data::FieldID,
    title_field: crate::data::FieldID,
    q: Seq<char>,
)
    requires
        forall|t: TileID|
            #[trigger] cache_has_tile(c1, slot.entry_id@, t) == cache_has_tile(
                c2,
                slot.entry_id@,
                t,
            ),
        slot_fresh_tiles_indexed(search, c1, slot, search_field, title_field, q),
    ensures
        slot_fresh_tiles_indexed(search, c2, slot, search_field, title_field, q),
{
}

/// Whether the tile payload holds a matching item with this
/// identifier whose display record — title, original interval, and the
/// row locator reversed for screen space — sits in the (entry, tile)
/// bucket of the search cache.
pub open spec fn tile_new_result_recorded(
    search: SearchState,
    path: Seq<i64>,
    tile_id: TileID,
    data: SlotMetaTileData,
    uid: u64,
    search_field: crate::data::FieldID,
    title_field: crate::data::FieldID,
    q: Seq<char>,
) -> bool {
    exists|r: int, x: int|
        0 <= r < data.items@.len() && 0 <= x < data.items@[r]@.len() && (
        #[trigger] data.items@[r]@[x]).item_uid.0 == uid && item_matches(
            data.items@[r]@[x],
            search_field,
            title_field,
            q,
        ) && crate::search::cache_has_record(
            search.cache_view(),
            path,
            tile_id,
            (SearchCacheItem {
                item_uid: data.items@[r]@[x].item_uid,
                title: data.items@[r]@[x].title,
                interval: data.items@[r]@[x].original_interval,
                irow: (data.items@.len() - 1 - r) as usize,
            }),
        )
}

/// Whether one of the slot's arrived metadata tiles holds a recorded
/// matching item with this identifier.
pub open spec fn slot_new_result_recorded(
    search: SearchState,
    slot: Slot,
    uid: u64,
    search_field: crate::data::FieldID,
    title_field: crate::data::FieldID,
    q: Seq<char>,
) -> bool {
    exists|t: int|
        0 <= t < slot.tile_metas@.len() && (#[trigger] slot.tile_metas@[t]).1 is Some
            && tile_new_result_recorded(
            search,
            slot.entry_id@,
            slot.tile_metas@[t].0,
            slot.tile_metas@[t].1->Some_0,
            uid,
            search_field,
            title_field,
            q,
        )
}

/// A recorded attribution survives any later growth of the results.
proof fn lemma_slot_recorded_persists(
    s1: SearchState,
    s2: SearchState,
    slot: Slot,
    uid: u64,
    search_field: crate::data::FieldID,
    title_field: crate::data::FieldID,
    q: Seq<char>,
)
    requires
        slot_new_result_recorded(s1, slot, uid, search_field, title_field, q),
        crate::search::records_preserved(s1.cache_view(), s2.cache_view()),
    ensures
        slot_new_result_recorded(s2, slot, uid, search_field, title_field, q),
{
    let t = choose|t: int|
        0 <= t < slot.tile_metas@.len() && (#[trigger] slot.tile_metas@[t]).1 is Some
            && tile_new_result_recorded(
            s1,
            slot.entry_id@,
            slot.tile_metas@[t].0,
            slot.tile_metas@[t].1->Some_0,
            uid,
            search_field,
            title_field,
            q,
        );
    lemma_tile_recorded_persists(
        s1,
        s2,
        slot.entry_id@,
        slot.tile_metas@[t].0,
        slot.tile_metas@[t].1->Some_0,
        uid,
        search_field,
        title_field,
        q,
    );
}

/// Whether one of the kind's slots holds a recorded matching item with
/// this identifier.
pub open spec fn kind_new_result_recorded(
    search: SearchState,
    kind: KindPanel,
    uid: u64,
    search_field: crate::data::FieldID,
    title_field: crate::data::FieldID,
    q: Seq<char>,
) -> bool {
    exists|i: int|
        0 <= i < kind.slots@.len() && slot_new_result_recorded(
            search,
            #[trigger] kind.slots@[i],
            uid,
            search_field,
            title_field,
            q,
        )
}

/// Whether one of the node's kinds holds a recorded matching item with
/// this identifier.
pub open spec fn node_new_result_recorded(
    search: SearchState,
    node: NodePanel,
    uid: u64,
    search_field: crate::data::FieldID,
    title_field: crate::data::FieldID,
    q: Seq<char>,
) -> bool {
    exists|j: int|
        0 <= j < node.kinds@.len() && kind_new_result_recorded(
            search,
            #[trigger] node.kinds@[j],
            uid,
            search_field,
            title_field,
            q,
        )
}

/// Whether some slot of the tree holds a recorded matching item with
/// this identifier: the soundness side of the search — every counted
/// result is a match, recorded where it was found.
pub open spec fn root_new_result_recorded(
    search: SearchState,
    root: RootPanel,
    uid: u64,
    search_field: crate::data::FieldID,
    title_field: crate::data::FieldID,
    q: Seq<char>,
) -> bool {
    exists|a: int|
        0 <= a < root.nodes@.len() && node_new_result_recorded(
            search,
            #[trigger] root.nodes@[a],
            uid,
            search_field,
            title_field,
            q,
        )
}

/// Every slot of a kind panel the search descends into has its fresh
/// tiles indexed.
pub open spec fn kind_scope_indexed(
    search: SearchState,
    cache0: Seq<EntryCache>,
    kind: KindPanel,
    force: bool,
    search_field: crate::data::FieldID,
    title_field: crate::data::FieldID,
    q: Seq<char>,
) -> bool {
    (kind.expanded || force) ==> forall|i: int|
        0 <= i < kind.slots@.len() ==> slot_fresh_tiles_indexed(
            search,
            cache0,
            #[trigger] kind.slots@[i],
            search_field,
            title_field,
            q,
        )
}

/// Every kind of a node the search descends into — expanded or forced,
/// and passing the kind filter — has its slots indexed.
pub open spec fn node_scope_indexed(
    search: SearchState,
    cache0: Seq<EntryCache>,
    node: NodePanel,
    kind_filter: Seq<Seq<char>>,
    force: bool,
    search_field: crate::data::FieldID,
    title_field: crate::data::FieldID,
    q: Seq<char>,
) -> bool {
    (node.expanded || force) ==> forall|j: int|
        0 <= j < node.kinds@.len() && (force || kind_filter.len() == 0 || kind_filter.contains(
            (#[trigger] node.kinds@[j]).short_name@,
        )) ==> kind_scope_indexed(
            search,
            cache0,
            node.kinds@[j],
            force,
            search_field,
            title_field,
            q,
        )
}

/// Every node of the tree the search visits — in the node range, or
/// everything when forced — has its kinds indexed.
pub open spec fn root_scope_indexed(
    search: SearchState,
    cache0: Seq<EntryCache>,
    root: RootPanel,
    min_node: u64,
    max_node: u64,
    kind_filter: Seq<Seq<char>>,
    force: bool,
    search_field: crate::data::FieldID,
    title_field: crate::data::FieldID,
    q: Seq<char>,
) -> bool {
    (root.expanded || force) ==> forall|a: int|
        0 <= a < root.nodes@.len() && (force || (min_node <= a && a <= max_node))
            ==> node_scope_indexed(
            search,
            cache0,
            #[trigger] root.nodes@[a],
            kind_filter,
            force,
            search_field,
            title_field,
            q,
        )
}

/// What one frame's preparation guarantees for a summary plot: its
/// cache follows the view. A moved view drops the cache and requests
/// the view's tiles afresh; an empty cache is filled the same way; a
/// cache already filled for this view stays. `room` says the request
/// counter ended below its ceiling; at the ceiling requests and their
/// buckets are dropped together, so the refill is only owed with room.
pub open spec fn summary_prepared(
    s0: Summary,
    s1: Summary,
    ts: TileSet,
    view: Interval,
    room: bool,
) -> bool {
    &&& s1.entry_id == s0.entry_id
    &&& s1.color == s0.color
    &&& s1.last_view_interval == Some(view)
    &&& (if s0.last_view_interval != Some(view) || s0.tiles@.len() == 0 {
        &&& (room ==> forall|j: int|
            0 <= j < crate::config::resolved_tiles(ts, view).len() ==> has_bucket(
                s1.tiles@,
                crate::config::resolved_tiles(ts, view)[j],
            ))
        &&& (s0.last_view_interval != Some(view) ==> forall|k: int|
            0 <= k < s1.tiles@.len() ==> (#[trigger] s1.tiles@[k]).1 is None)
    } else {
        s1.tiles == s0.tiles
    })
}

/// What one frame's preparation guarantees for a slot: nothing for a
/// collapsed slot; for an expanded one, its caches follow the view as
/// for a summary, and a moved view also drops the metadata cache.
/// `room` is read as for a summary.
pub open spec fn slot_prepared(s0: Slot, s1: Slot, ts: TileSet, view: Interval, room: bool) -> bool {
    &&& s1.entry_id == s0.entry_id
    &&& s1.expanded == s0.expanded
    &&& s1.short_name == s0.short_name
    &&& s1.long_name == s0.long_name
    &&& s1.max_rows == s0.max_rows
    &&& (!s0.expanded ==> s1 == s0)
    &&& (s0.expanded ==> {
        &&& s1.last_view_interval == Some(view)
        &&& (if s0.last_view_interval != Some(view) {
            &&& s1.tile_metas@.len() == 0
            &&& (room ==> s1.tile_ids@ == crate::config::resolved_tiles(ts, view))
            &&& (room ==> forall|j: int|
                0 <= j < crate::config::resolved_tiles(ts, view).len() ==> has_bucket(
                    s1.tiles@,
                    crate::config::resolved_tiles(ts, view)[j],
                ))
            &&& forall|k: int| 0 <= k < s1.tiles@.len() ==> (#[trigger] s1.tiles@[k]).1 is None
        } else if s0.tiles@.len() == 0 {
            &&& s1.tile_metas == s0.tile_metas
            &&& (room ==> s1.tile_ids@ == s0.tile_ids@ + crate::config::resolved_tiles(ts, view))
            &&& (room ==> forall|j: int|
                0 <= j < crate::config::resolved_tiles(ts, view).len() ==> has_bucket(
                    s1.tiles@,
                    crate::config::resolved_tiles(ts, view)[j],
                ))
        } else {
            &&& s1.tiles == s0.tiles
            &&& s1.tile_ids == s0.tile_ids
            &&& s1.tile_metas == s0.tile_metas
        })
    })
}

/// What one frame's metadata pass guarantees for a slot: with room on
/// the request counter the view's tiles all have metadata buckets;
/// old buckets persist, and nothing else moves.
pub open spec fn slot_meta_inflated(s0: Slot, s1: Slot, ts: TileSet, view: Interval, room: bool) -> bool {
    &&& s1.entry_id == s0.entry_id
    &&& s1.expanded == s0.expanded
    &&& s1.short_name == s0.short_name
    &&& s1.long_name == s0.long_name
    &&& s1.max_rows == s0.max_rows
    &&& s1.last_view_interval == s0.last_view_interval
    &&& s1.tiles == s0.tiles
    &&& s1.tile_ids == s0.tile_ids
    &&& s0.tile_metas@.is_prefix_of(s1.tile_metas@)
    &&& (room ==> forall|j: int|
        0 <= j < crate::config::resolved_tiles(ts, view).len() ==> has_bucket(
            s1.tile_metas@,
            crate::config::resolved_tiles(ts, view)[j],
        ))
}

/// Both sides have a summary and it was prepared, or neither has one.
pub open spec fn option_summary_prepared(
    a: Option<Summary>,
    b: Option<Summary>,
    ts: TileSet,
    view: Interval,
    room: bool,
) -> bool {
    match (a, b) {
        (None, None) => true,
        (Some(x), Some(y)) => summary_prepared(x, y, ts, view, room),
        _ => false,
    }
}

/// What one frame's preparation guarantees for a kind panel: its
/// summary is prepared, and so is every slot when the kind is
/// expanded; a collapsed kind's slots stay as they were.
pub open spec fn kind_prepared(
    k0: KindPanel,
    k1: KindPanel,
    ts: TileSet,
    view: Interval,
    room: bool,
) -> bool {
    &&& k1.entry_id == k0.entry_id
    &&& k1.expanded == k0.expanded
    &&& k1.short_name == k0.short_name
    &&& k1.long_name == k0.long_name
    &&& k1.slots@.len() == k0.slots@.len()
    &&& option_summary_prepared(k0.summary, k1.summary, ts, view, room)
    &&& (k0.expanded ==> forall|i: int|
        0 <= i < k0.slots@.len() ==> slot_prepared(
            #[trigger] k0.slots@[i],
            k1.slots@[i],
            ts,
            view,
            room,
        ))
    &&& (!k0.expanded ==> k1.slots == k0.slots)
}

/// What one frame's preparation guarantees for a node panel: its
/// summary is prepared, and so is every filter-passing kind when the
/// node is expanded; the rest stay as they were.
pub open spec fn node_prepared(
    n0: NodePanel,
    n1: NodePanel,
    ts: TileSet,
    view: Interval,
    kind_filter: Seq<Seq<char>>,
    room: bool,
) -> bool {
    &&& n1.entry_id == n0.entry_id
    &&& n1.expanded == n0.expanded
    &&& n1.short_name == n0.short_name
    &&& n1.long_name == n0.long_name
    &&& n1.kinds@.len() == n0.kinds@.len()
    &&& option_summary_prepared(n0.summary, n1.summary, ts, view, room)
    &&& (n0.expanded ==> forall|j: int|
        0 <= j < n0.kinds@.len() ==> (if kind_filter.len() == 0 || kind_filter.contains(
            (#[trigger] n0.kinds@[j]).short_name@,
        ) {
            kind_prepared(n0.kinds@[j], n1.kinds@[j], ts, view, room)
        } else {
            n1.kinds@[j] == n0.kinds@[j]
        }))
    &&& (!n0.expanded ==> n1.kinds == n0.kinds)
}

/// What one frame's preparation guarantees for the whole tree: the
/// root summary is prepared, and so is every node in the visible range
/// when the root is expanded; the rest stay as they were.
pub open spec fn root_prepared(
    r0: RootPanel,
    r1: RootPanel,
    ts: TileSet,
    view: Interval,
    min_node: u64,
    max_node: u64,
    kind_filter: Seq<Seq<char>>,
    room: bool,
) -> bool {
    &&& r1.entry_id == r0.entry_id
    &&& r1.expanded == r0.expanded
    &&& r1.short_name == r0.short_name
    &&& r1.long_name == r0.long_name
    &&& r1.nodes@.len() == r0.nodes@.len()
    &&& option_summary_prepared(r0.summary, r1.summary, ts, view, room)
    &&& (r0.expanded ==> forall|a: int|
        0 <= a < r0.nodes@.len() ==> (if min_node <= a && a <= max_node {
            node_prepared(#[trigger] r0.nodes@[a], r1.nodes@[a], ts, view, kind_filter, room)
        } else {
            r1.nodes@[a] == r0.nodes@[a]
        }))
    &&& (!r0.expanded ==> r1.nodes == r0.nodes)
}

/// What one frame's metadata pass guarantees for a kind panel: every
/// slot has the view's metadata requested when the kind is expanded or
/// the search includes collapsed entries; otherwise nothing moves.
pub open spec fn kind_meta_inflated(
    k0: KindPanel,
    k1: KindPanel,
    ts: TileSet,
    view: Interval,
    force: bool,
    room: bool,
) -> bool {
    &&& k1.entry_id == k0.entry_id
    &&& k1.expanded == k0.expanded
    &&& k1.short_name == k0.short_name
    &&& k1.long_name == k0.long_name
    &&& k1.summary == k0.summary
    &&& k1.slots@.len() == k0.slots@.len()
    &&& ((k0.expanded || force) ==> forall|i: int|
        0 <= i < k0.slots@.len() ==> slot_meta_inflated(
            #[trigger] k0.slots@[i],
            k1.slots@[i],
            ts,
            view,
            room,
        ))
    &&& (!(k0.expanded || force) ==> k1 == k0)
}

/// What one frame's metadata pass guarantees for a node panel.
pub open spec fn node_meta_inflated(
    n0: NodePanel,
    n1: NodePanel,
    ts: TileSet,
    view: Interval,
    kind_filter: Seq<Seq<char>>,
    force: bool,
    room: bool,
) -> bool {
    &&& n1.entry_id == n0.entry_id
    &&& n1.expanded == n0.expanded
    &&& n1.short_name == n0.short_name
    &&& n1.long_name == n0.long_name
    &&& n1.summary == n0.summary
    &&& n1.kinds@.len() == n0.kinds@.len()
    &&& ((n0.expanded || force) ==> forall|j: int|
        0 <= j < n0.kinds@.len() ==> (if force || kind_filter.len() == 0 || kind_filter.contains(
            (#[trigger] n0.kinds@[j]).short_name@,
        ) {
            kind_meta_inflated(n0.kinds@[j], n1.kinds@[j], ts, view, force, room)
        } else {
            n1.kinds@[j] == n0.kinds@[j]
        }))
    &&& (!(n0.expanded || force) ==> n1 == n0)
}

/// What one frame's metadata pass guarantees for the whole tree: every
/// slot the search will visit has the view's metadata requested.
pub open spec fn root_meta_inflated(
    r0: RootPanel,
    r1: RootPanel,
    ts: TileSet,
    view: Interval,
    min_node: u64,
    max_node: u64,
    kind_filter: Seq<Seq<char>>,
    force: bool,
    room: bool,
) -> bool {
    &&& r1.entry_id == r0.entry_id
    &&& r1.expanded == r0.expanded
    &&& r1.short_name == r0.short_name
    &&& r1.long_name == r0.long_name
    &&& r1.summary == r0.summary
    &&& r1.nodes@.len() == r0.nodes@.len()
    &&& ((r0.expanded || force) ==> forall|a: int|
        0 <= a < r0.nodes@.len() ==> (if force || (min_node <= a && a <= max_node) {
            node_meta_inflated(
                #[trigger] r0.nodes@[a],
                r1.nodes@[a],
                ts,
                view,
                kind_filter,
                force,
                room,
            )
        } else {
            r1.nodes@[a] == r0.nodes@[a]
        }))
    &&& (!(r0.expanded || force) ==> r1 == r0)
}

/// A preparation claim with headroom implies the claim without it.
pub proof fn lemma_option_summary_prepared_relax(
    a: Option<Summary>,
    b: Option<Summary>,
    ts: TileSet,
    view: Interval,
    room: bool,
)
    requires
        option_summary_prepared(a, b, ts, view, room),
    ensures
        option_summary_prepared(a, b, ts, view, false),
{
}

/// A preparation claim with headroom implies the claim without it.
pub proof fn lemma_slot_prepared_relax(s0: Slot, s1: Slot, ts: TileSet, view: Interval, room: bool)
    requires
        slot_prepared(s0, s1, ts, view, room),
    ensures
        slot_prepared(s0, s1, ts, view, false),
{
}

/// A preparation claim with headroom implies the claim without it.
pub proof fn lemma_kind_prepared_relax(
    k0: KindPanel,
    k1: KindPanel,
    ts: TileSet,
    view: Interval,
    room: bool,
)
    requires
        kind_prepared(k0, k1, ts, view, room),
    ensures
        kind_prepared(k0, k1, ts, view, false),
{
    lemma_option_summary_prepared_relax(k0.summary, k1.summary, ts, view, room);
    if k0.expanded {
        assert forall|i: int| 0 <= i < k0.slots@.len() implies slot_prepared(
            #[trigger] k0.slots@[i],
            k1.slots@[i],
            ts,
            view,
            false,
        ) by {
            lemma_slot_prepared_relax(k0.slots@[i], k1.slots@[i], ts, view, room);
        }
    }
}

/// A preparation claim with headroom implies the claim without it.
pub proof fn lemma_node_prepared_relax(
    n0: NodePanel,
    n1: NodePanel,
    ts: TileSet,
    view: Interval,
    kind_filter: Seq<Seq<char>>,
    room: bool,
)
    requires
        node_prepared(n0, n1, ts, view, kind_filter, room),
    ensures
        node_prepared(n0, n1, ts, view, kind_filter, false),
{
    lemma_option_summary_prepared_relax(n0.summary, n1.summary, ts, view, room);
    if n0.expanded {
        assert forall|j: int|
            0 <= j < n0.kinds@.len() && (kind_filter.len() == 0 || kind_filter.contains(
                (#[trigger] n0.kinds@[j]).short_name@,
            )) implies kind_prepared(n0.kinds@[j], n1.kinds@[j], ts, view, false) by {
            lemma_kind_prepared_relax(n0.kinds@[j], n1.kinds@[j], ts, view, room);
        }
    }
}

/// A metadata claim with headroom implies the claim without it.
pub proof fn lemma_slot_meta_inflated_relax(
    s0: Slot,
    s1: Slot,
    ts: TileSet,
    view: Interval,
    room: bool,
)
    requires
        slot_meta_inflated(s0, s1, ts, view, room),
    ensures
        slot_meta_inflated(s0, s1, ts, view, false),
{
}

/// A metadata claim with headroom implies the claim without it.
pub proof fn lemma_kind_meta_inflated_relax(
    k0: KindPanel,
    k1: KindPanel,
    ts: TileSet,
    view: Interval,
    force: bool,
    room: bool,
)
    requires
        kind_meta_inflated(k0, k1, ts, view, force, room),
    ensures
        kind_meta_inflated(k0, k1, ts, view, force, false),
{
    if k0.expanded || force {
        assert forall|i: int| 0 <= i < k0.slots@.len() implies slot_meta_inflated(
            #[trigger] k0.slots@[i],
            k1.slots@[i],
            ts,
            view,
            false,
        ) by {
            lemma_slot_meta_inflated_relax(k0.slots@[i], k1.slots@[i], ts, view, room);
        }
    }
}

/// A metadata claim with headroom implies the claim without it.
pub proof fn lemma_node_meta_inflated_relax(
    n0: NodePanel,
    n1: NodePanel,
    ts: TileSet,
    view: Interval,
    kind_filter: Seq<Seq<char>>,
    force: bool,
    room: bool,
)
    requires
        node_meta_inflated(n0, n1, ts, view, kind_filter, force, room),
    ensures
        node_meta_inflated(n0, n1, ts, view, kind_filter, force, false),
{
    if n0.expanded || force {
        assert forall|j: int|
            0 <= j < n0.kinds@.len() && (force || kind_filter.len() == 0 || kind_filter.contains(
                (#[trigger] n0.kinds@[j]).short_name@,
            )) implies kind_meta_inflated(n0.kinds@[j], n1.kinds@[j], ts, view, force, false) by {
            lemma_kind_meta_inflated_relax(n0.kinds@[j], n1.kinds@[j], ts, view, force, room);
        }
    }
}

impl Summary {
    /// A summary's path ends in the sentinel under a slot path.
    pub open spec fn wf(&self) -> bool {
        &&& self.entry_id@.len() >= 1
        &&& self.entry_id@.last() == -1i64
        &&& tile_keys_unique(self.tiles@)
    }

    pub fn new(color: Color, entry_id: EntryID) -> (r: Self)
        requires
            entry_id@.len() >= 1,
            entry_id@.last() == -1i64,
        ensures
            r.wf(),
            r.entry_id == entry_id,
            r.color == color,
            r.tiles@.len() == 0,
            r.last_view_interval is None,
    {
        Self { entry_id, color, tiles: Vec::new(), last_view_interval: None }
    }

    /// Forgets every cached tile.
    pub fn clear(&mut self)
        ensures
            final(self).tiles@.len() == 0,
            final(self).entry_id == old(self).entry_id,
            final(self).color == old(self).color,
            final(self).last_view_interval == old(self).last_view_interval,
    {
        self.tiles.clear();
    }

    /// Requests every tile the view needs and marks each as awaited;
    /// at the request counter's ceiling a tile is neither requested
    /// nor marked.
    pub fn inflate<D: DeferredDataSource>(
        &mut self,
        config: &mut Config<D>,
        view_interval: Interval,
    )
        requires
            old(self).wf(),
            old(config).wf(),
            view_interval.wf(),
        ensures
            final(self).wf(),
            final(self).entry_id == old(self).entry_id,
            final(self).last_view_interval == old(self).last_view_interval,
            final(self).color == old(self).color,
            old(self).tiles@.is_prefix_of(final(self).tiles@),
            forall|k: int|
                old(self).tiles@.len() <= k < final(self).tiles@.len() ==> (#[trigger] final(self).tiles@[k]).1 is None,
            final(config).data_source.outstanding_requests < u64::MAX ==> forall|j: int|
                0 <= j < crate::config::resolved_tiles(
                    old(config).tile_set,
                    view_interval,
                ).len() ==> has_bucket(
                    final(self).tiles@,
                    crate::config::resolved_tiles(old(config).tile_set, view_interval)[j],
                ),
            old(config).data_source.outstanding_requests <= final(config).data_source.outstanding_requests,
            final(config).wf(),
            final(config).tile_set == old(config).tile_set,
            final(config).search_state == old(config).search_state,
    {
        let requested = config.request_tiles(view_interval);
        let n = requested.len();
        proof {
            assert(old(self).tiles@.is_prefix_of(self.tiles@)) by {
                assert(self.tiles@.subrange(0, self.tiles@.len() as int) =~= self.tiles@);
            }
        }
        let mut i: usize = 0;
        while i < n
            invariant
                n == requested@.len(),
                requested@ == crate::config::resolved_tiles(old(config).tile_set, view_interval),
                0 <= i <= n,
                self.wf(),
                self.entry_id == old(self).entry_id,
                self.last_view_interval == old(self).last_view_interval,
                self.color == old(self).color,
                old(self).tiles@.is_prefix_of(self.tiles@),
                forall|k: int|
                    old(self).tiles@.len() <= k < self.tiles@.len() ==> (
                    #[trigger] self.tiles@[k]).1 is None,
                config.data_source.outstanding_requests < u64::MAX ==> forall|j: int|
                    0 <= j < i ==> has_bucket(self.tiles@, requested@[j]),
                old(config).data_source.outstanding_requests <= config.data_source.outstanding_requests,
                config.wf(),
                config.tile_set == old(config).tile_set,
                config.search_state == old(config).search_state,
            decreases n - i,
        {
            let tile_id = requested[i];
            // The counter is exact; at its ceiling a request is
            // dropped, and so is its bucket: a tile never asked for
            // must not sit awaited.
            if config.data_source.outstanding_requests() < u64::MAX {
                config.data_source.fetch_summary_tile(&self.entry_id, tile_id, false);
                if !has_tile_key_summary(&self.tiles, tile_id) {
                    let ghost tiles0 = self.tiles@;
                    self.tiles.push((tile_id, None));
                    proof {
                        assert forall|k1: int, k2: int|
                            0 <= k1 < k2 < self.tiles@.len() implies (#[trigger] self.tiles@[k1]).0
                            != (#[trigger] self.tiles@[k2]).0 by {
                            if k2 == self.tiles@.len() - 1 {
                                assert(self.tiles@[k1] == tiles0[k1]);
                            } else {
                                assert(self.tiles@[k1] == tiles0[k1]);
                                assert(self.tiles@[k2] == tiles0[k2]);
                            }
                        }
                        assert(tiles0.is_prefix_of(self.tiles@)) by {
                            assert(self.tiles@.subrange(0, tiles0.len() as int) =~= tiles0);
                        }
                        if config.data_source.outstanding_requests < u64::MAX {
                            assert forall|j: int| 0 <= j < i implies has_bucket(
                                self.tiles@,
                                requested@[j],
                            ) by {
                                lemma_bucket_persists(tiles0, self.tiles@, requested@[j]);
                            }
                        }
                        assert(self.tiles@.last().0 == tile_id);
                        assert(has_bucket(self.tiles@, tile_id));
                    }
                }
            }
            i += 1;
        }
    }

    /// Clears the cache when the view moved and requests the visible
    /// tiles if none are cached; runs once per frame before the plot is
    /// drawn.
    pub fn prepare<D: DeferredDataSource>(
        &mut self,
        config: &mut Config<D>,
        view_interval: Interval,
    )
        requires
            old(self).wf(),
            old(config).wf(),
            view_interval.wf(),
        ensures
            final(self).wf(),
            summary_prepared(
                *old(self),
                *final(self),
                old(config).tile_set,
                view_interval,
                final(config).data_source.outstanding_requests < u64::MAX,
            ),
            old(config).data_source.outstanding_requests <= final(config).data_source.outstanding_requests,
            final(config).wf(),
            final(config).tile_set == old(config).tile_set,
            final(config).search_state == old(config).search_state,
    {
        let stale = match self.last_view_interval {
            Some(last) => last != view_interval,
            None => true,
        };
        if stale {
            self.clear();
        }
        self.last_view_interval = Some(view_interval);
        if self.tiles.len() == 0 {
            self.inflate(config, view_interval);
        }
    }

    /// Stores an arrived utilization payload under its tile, if that
    /// tile is still awaited or cached.
    pub fn store_tile(&mut self, tile_id: TileID, data: SummaryTileData)
        requires
            old(self).wf(),
        ensures
            final(self).wf(),
            final(self).entry_id == old(self).entry_id,
            final(self).color == old(self).color,
            final(self).last_view_interval == old(self).last_view_interval,
            final(self).tiles@.len() == old(self).tiles@.len(),
            forall|k: int|
                0 <= k < old(self).tiles@.len() ==> (#[trigger] final(self).tiles@[k]) == if old(self).tiles@[k].0 == tile_id {
                    (tile_id, Some(data))
                } else {
                    old(self).tiles@[k]
                },
    {
        let n = self.tiles.len();
        let mut k: usize = 0;
        while k < n
            invariant
                n == self.tiles@.len() == old(self).tiles@.len(),
                0 <= k <= n,
                self.wf(),
                self.entry_id == old(self).entry_id,
                self.color == old(self).color,
                self.last_view_interval == old(self).last_view_interval,
                forall|j: int|
                    0 <= j < n ==> (#[trigger] self.tiles@[j]) == if j < k && old(self).tiles@[j].0 == tile_id {
                        (tile_id, Some(data))
                    } else {
                        old(self).tiles@[j]
                    },
            decreases n - k,
        {
            if self.tiles[k].0 == tile_id {
                let ghost tiles0 = self.tiles@;
                self.tiles[k] = (tile_id, Some(data));
                proof {
                    assert forall|k1: int, k2: int|
                        0 <= k1 < k2 < self.tiles@.len() implies (#[trigger] self.tiles@[k1]).0
                        != (#[trigger] self.tiles@[k2]).0 by {
                        assert(self.tiles@[k1].0 == tiles0[k1].0);
                        assert(self.tiles@[k2].0 == tiles0[k2].0);
                    }
                }
                return ;
            }
            k += 1;
        }
    }
}

/// Whether the summary cache already has a bucket for this tile.
fn has_tile_key_summary(tiles: &Vec<(TileID, Option<SummaryTileData>)>, tile_id: TileID) -> (r:
    bool)
    ensures
        r == exists|k: int| 0 <= k < tiles@.len() && (#[trigger] tiles@[k]).0 == tile_id,
{
    let n = tiles.len();
    let mut k: usize = 0;
    while k < n
        invariant
            n == tiles@.len(),
            0 <= k <= n,
            forall|j: int| 0 <= j < k ==> (#[trigger] tiles@[j]).0 != tile_id,
        decreases n - k,
    {
        if tiles[k].0 == tile_id {
            return true;
        }
        k += 1;
    }
    false
}

impl Slot {
    /// A slot sits at the third level of the tree, on a pure slot path,
    /// with distinct tile keys in both caches.
    pub open spec fn wf(&self) -> bool {
        &&& self.entry_id@.len() == 3
        &&& self.entry_id.is_slot_path()
        &&& tile_keys_unique(self.tiles@)
        &&& tile_keys_unique(self.tile_metas@)
    }

    pub fn new(short_name: String, long_name: String, max_rows: u64, entry_id: EntryID) -> (r:
        Self)
        requires
            entry_id@.len() == 3,
            entry_id.is_slot_path(),
        ensures
            r.wf(),
            r.entry_id == entry_id,
            r.short_name == short_name,
            r.long_name == long_name,
            r.max_rows == max_rows,
            r.expanded == false,
            r.tile_ids@.len() == 0,
            r.tiles@.len() == 0,
            r.tile_metas@.len() == 0,
            r.last_view_interval is None,
    {
        Self {
            entry_id,
            short_name,
            long_name,
            expanded: false,
            max_rows,
            tile_ids: Vec::new(),
            tiles: Vec::new(),
            tile_metas: Vec::new(),
            last_view_interval: None,
        }
    }

    /// How many rows the slot draws: its capacity hint when expanded,
    /// and a fixed small band when collapsed.
    pub fn rows(&self) -> (r: u64)
        ensures
            r == if self.expanded && self.max_rows > UNEXPANDED_ROWS {
                self.max_rows
            } else {
                UNEXPANDED_ROWS as u64
            },
    {
        if self.expanded && self.max_rows > UNEXPANDED_ROWS {
            self.max_rows
        } else {
            UNEXPANDED_ROWS
        }
    }

    /// Forgets every cached tile and metadata tile.
    pub fn clear(&mut self)
        ensures
            final(self).tile_ids@.len() == 0,
            final(self).tiles@.len() == 0,
            final(self).tile_metas@.len() == 0,
            final(self).entry_id == old(self).entry_id,
            final(self).short_name == old(self).short_name,
            final(self).long_name == old(self).long_name,
            final(self).expanded == old(self).expanded,
            final(self).max_rows == old(self).max_rows,
            final(self).last_view_interval == old(self).last_view_interval,
    {
        self.tile_ids.clear();
        self.tiles.clear();
        self.tile_metas.clear();
    }

    /// Requests every slot tile the view needs and marks each as
    /// awaited; at the request counter's ceiling a tile is neither
    /// requested nor marked.
    pub fn inflate<D: DeferredDataSource>(
        &mut self,
        config: &mut Config<D>,
        view_interval: Interval,
    )
        requires
            old(self).wf(),
            old(config).wf(),
            view_interval.wf(),
        ensures
            final(self).wf(),
            final(self).entry_id == old(self).entry_id,
            final(self).expanded == old(self).expanded,
            final(self).last_view_interval == old(self).last_view_interval,
            final(self).tile_metas == old(self).tile_metas,
            final(self).short_name == old(self).short_name,
            final(self).long_name == old(self).long_name,
            final(self).max_rows == old(self).max_rows,
            old(self).tiles@.is_prefix_of(final(self).tiles@),
            forall|k: int|
                old(self).tiles@.len() <= k < final(self).tiles@.len() ==> (#[trigger] final(self).tiles@[k]).1 is None,
            final(config).data_source.outstanding_requests < u64::MAX ==> final(self).tile_ids@
                == old(self).tile_ids@ + crate::config::resolved_tiles(
                old(config).tile_set,
                view_interval,
            ),
            final(config).data_source.outstanding_requests < u64::MAX ==> forall|j: int|
                0 <= j < crate::config::resolved_tiles(
                    old(config).tile_set,
                    view_interval,
                ).len() ==> has_bucket(
                    final(self).tiles@,
                    crate::config::resolved_tiles(old(config).tile_set, view_interval)[j],
                ),
            old(config).data_source.outstanding_requests <= final(config).data_source.outstanding_requests,
            final(config).wf(),
            final(config).tile_set == old(config).tile_set,
            final(config).search_state == old(config).search_state,
    {
        let requested = config.request_tiles(view_interval);
        let n = requested.len();
        proof {
            assert(old(self).tiles@.is_prefix_of(self.tiles@)) by {
                assert(self.tiles@.subrange(0, self.tiles@.len() as int) =~= self.tiles@);
            }
            assert(self.tile_ids@ =~= old(self).tile_ids@ + requested@.take(0));
        }
        let mut i: usize = 0;
        while i < n
            invariant
                n == requested@.len(),
                requested@ == crate::config::resolved_tiles(old(config).tile_set, view_interval),
                0 <= i <= n,
                self.wf(),
                self.entry_id == old(self).entry_id,
                self.expanded == old(self).expanded,
                self.last_view_interval == old(self).last_view_interval,
                self.tile_metas == old(self).tile_metas,
                self.short_name == old(self).short_name,
                self.long_name == old(self).long_name,
                self.max_rows == old(self).max_rows,
                old(self).tiles@.is_prefix_of(self.tiles@),
                forall|k: int|
                    old(self).tiles@.len() <= k < self.tiles@.len() ==> (
                    #[trigger] self.tiles@[k]).1 is None,
                config.data_source.outstanding_requests < u64::MAX ==> self.tile_ids@ == old(self).tile_ids@ + requested@.take(i as int),
                config.data_source.outstanding_requests < u64::MAX ==> forall|j: int|
                    0 <= j < i ==> has_bucket(self.tiles@, requested@[j]),
                old(config).data_source.outstanding_requests <= config.data_source.outstanding_requests,
                config.wf(),
                config.tile_set == old(config).tile_set,
                config.search_state == old(config).search_state,
            decreases n - i,
        {
            let tile_id = requested[i];
            // The counter is exact; at its ceiling a request is
            // dropped, and so are its bucket and its key: a tile
            // never asked for must not sit awaited.
            if config.data_source.outstanding_requests() < u64::MAX {
                config.data_source.fetch_slot_tile(&self.entry_id, tile_id, false);
                self.tile_ids.push(tile_id);
                proof {
                    if config.data_source.outstanding_requests < u64::MAX {
                        assert(requested@.take(i as int + 1).drop_last() =~= requested@.take(
                            i as int,
                        ));
                        assert(self.tile_ids@ =~= old(self).tile_ids@ + requested@.take(
                            i as int + 1,
                        ));
                    }
                }
                if !has_tile_key_slot(&self.tiles, tile_id) {
                    let ghost tiles0 = self.tiles@;
                    self.tiles.push((tile_id, None));
                    proof {
                        assert forall|k1: int, k2: int|
                            0 <= k1 < k2 < self.tiles@.len() implies (#[trigger] self.tiles@[k1]).0
                            != (#[trigger] self.tiles@[k2]).0 by {
                            if k2 == self.tiles@.len() - 1 {
                                assert(self.tiles@[k1] == tiles0[k1]);
                            } else {
                                assert(self.tiles@[k1] == tiles0[k1]);
                                assert(self.tiles@[k2] == tiles0[k2]);
                            }
                        }
                        assert(tiles0.is_prefix_of(self.tiles@)) by {
                            assert(self.tiles@.subrange(0, tiles0.len() as int) =~= tiles0);
                        }
                        if config.data_source.outstanding_requests < u64::MAX {
                            assert forall|j: int| 0 <= j < i implies has_bucket(
                                self.tiles@,
                                requested@[j],
                            ) by {
                                lemma_bucket_persists(tiles0, self.tiles@, requested@[j]);
                            }
                        }
                        assert(self.tiles@.last().0 == tile_id);
                        assert(has_bucket(self.tiles@, tile_id));
                    }
                }
            }
            i += 1;
        }
        proof {
            assert(requested@.take(n as int) =~= requested@);
        }
    }

    /// Clears the caches when the view moved and requests the visible
    /// tiles if none are cached; collapsed slots do nothing. This runs
    /// once per frame before the slot is drawn.
    pub fn prepare<D: DeferredDataSource>(
        &mut self,
        config: &mut Config<D>,
        view_interval: Interval,
    )
        requires
            old(self).wf(),
            old(config).wf(),
            view_interval.wf(),
        ensures
            final(self).wf(),
            slot_prepared(
                *old(self),
                *final(self),
                old(config).tile_set,
                view_interval,
                final(config).data_source.outstanding_requests < u64::MAX,
            ),
            old(config).data_source.outstanding_requests <= final(config).data_source.outstanding_requests,
            final(config).wf(),
            final(config).tile_set == old(config).tile_set,
            final(config).search_state == old(config).search_state,
    {
        if !self.expanded {
            return ;
        }
        let stale = match self.last_view_interval {
            Some(last) => last != view_interval,
            None => true,
        };
        if stale {
            self.clear();
        }
        self.last_view_interval = Some(view_interval);
        if self.tiles.len() == 0 {
            self.inflate(config, view_interval);
        }
    }

    /// The cached metadata for a tile, requesting it on first use: an
    /// absent tile is fetched and marked awaited, and the caller gets
    /// `None` until the payload arrives. At the request counter's
    /// ceiling the tile is neither fetched nor marked.
    pub fn fetch_meta_tile<D: DeferredDataSource>(
        &mut self,
        tile_id: TileID,
        config: &mut Config<D>,
    )
        requires
            old(self).wf(),
            old(config).wf(),
        ensures
            final(self).wf(),
            final(self).entry_id == old(self).entry_id,
            final(self).expanded == old(self).expanded,
            old(self).tile_metas@.is_prefix_of(final(self).tile_metas@),
            has_bucket(old(self).tile_metas@, tile_id) || old(config).data_source.outstanding_requests < u64::MAX ==> has_bucket(
                final(self).tile_metas@,
                tile_id,
            ),
            has_bucket(old(self).tile_metas@, tile_id) ==> *final(self) == *old(self) && *final(config) == *old(config),
            !has_bucket(old(self).tile_metas@, tile_id) && old(config).data_source.outstanding_requests < u64::MAX ==> final(self).tile_metas@ == old(self).tile_metas@.push((tile_id, None)) && final(self).tiles == old(self).tiles && final(self).tile_ids == old(self).tile_ids
                && final(self).short_name == old(self).short_name && final(self).long_name == old(self).long_name && final(self).max_rows == old(self).max_rows && final(self).last_view_interval == old(self).last_view_interval,
            !has_bucket(old(self).tile_metas@, tile_id) && old(config).data_source.outstanding_requests < u64::MAX ==> final(config).data_source.outstanding_requests == old(config).data_source.outstanding_requests + 1
                && final(config).data_source.data_source.inflight_slot_meta_tiles() == old(config).data_source.data_source.inflight_slot_meta_tiles() + 1,
            !has_bucket(old(self).tile_metas@, tile_id) && old(config).data_source.outstanding_requests == u64::MAX ==> *final(self) == *old(self) && *final(config) == *old(config),
            final(config).wf(),
            old(config).data_source.outstanding_requests <= final(config).data_source.outstanding_requests,
            final(config).data_source.outstanding_requests <= old(config).data_source.outstanding_requests + 1,
            final(config).tile_set == old(config).tile_set,
            final(config).search_state == old(config).search_state,
            final(config).resolutions == old(config).resolutions,
    {
        proof {
            assert(old(self).tile_metas@.is_prefix_of(self.tile_metas@)) by {
                assert(self.tile_metas@.subrange(0, self.tile_metas@.len() as int)
                    =~= self.tile_metas@);
            }
        }
        if !has_tile_key_meta(&self.tile_metas, tile_id) {
            // The counter is exact; at its ceiling a request is
            // dropped, and so is its bucket: a tile never asked for
            // must not sit awaited.
            if config.data_source.outstanding_requests() < u64::MAX {
                config.data_source.fetch_slot_meta_tile(&self.entry_id, tile_id, false);
                let ghost tiles0 = self.tile_metas@;
                self.tile_metas.push((tile_id, None));
                proof {
                    assert forall|k1: int, k2: int|
                        0 <= k1 < k2 < self.tile_metas@.len() implies (
                    #[trigger] self.tile_metas@[k1]).0 != (#[trigger] self.tile_metas@[k2]).0 by {
                        if k2 == self.tile_metas@.len() - 1 {
                            assert(self.tile_metas@[k1] == tiles0[k1]);
                        } else {
                            assert(self.tile_metas@[k1] == tiles0[k1]);
                            assert(self.tile_metas@[k2] == tiles0[k2]);
                        }
                    }
                    assert(tiles0.is_prefix_of(self.tile_metas@)) by {
                        assert(self.tile_metas@.subrange(0, tiles0.len() as int) =~= tiles0);
                    }
                    assert(self.tile_metas@.last().0 == tile_id);
                    assert(has_bucket(self.tile_metas@, tile_id));
                    assert(self.tile_metas@ =~= tiles0.push((tile_id, None)));
                }
            }
        }
    }

    /// Requests the metadata of every tile the view needs.
    pub fn inflate_meta<D: DeferredDataSource>(
        &mut self,
        config: &mut Config<D>,
        view_interval: Interval,
    )
        requires
            old(self).wf(),
            old(config).wf(),
            view_interval.wf(),
        ensures
            final(self).wf(),
            slot_meta_inflated(
                *old(self),
                *final(self),
                old(config).tile_set,
                view_interval,
                final(config).data_source.outstanding_requests < u64::MAX,
            ),
            old(config).data_source.outstanding_requests <= final(config).data_source.outstanding_requests,
            final(config).wf(),
            final(config).tile_set == old(config).tile_set,
            final(config).search_state == old(config).search_state,
    {
        let requested = config.request_tiles(view_interval);
        let n = requested.len();
        proof {
            assert(old(self).tile_metas@.is_prefix_of(self.tile_metas@)) by {
                assert(self.tile_metas@.subrange(0, self.tile_metas@.len() as int)
                    =~= self.tile_metas@);
            }
        }
        let mut i: usize = 0;
        while i < n
            invariant
                n == requested@.len(),
                requested@ == crate::config::resolved_tiles(old(config).tile_set, view_interval),
                0 <= i <= n,
                self.wf(),
                self.entry_id == old(self).entry_id,
                self.expanded == old(self).expanded,
                self.short_name == old(self).short_name,
                self.long_name == old(self).long_name,
                self.max_rows == old(self).max_rows,
                self.last_view_interval == old(self).last_view_interval,
                self.tiles == old(self).tiles,
                self.tile_ids == old(self).tile_ids,
                old(self).tile_metas@.is_prefix_of(self.tile_metas@),
                config.data_source.outstanding_requests < u64::MAX ==> forall|j: int|
                    0 <= j < i ==> has_bucket(self.tile_metas@, requested@[j]),
                old(config).data_source.outstanding_requests <= config.data_source.outstanding_requests,
                config.wf(),
                config.tile_set == old(config).tile_set,
                config.search_state == old(config).search_state,
            decreases n - i,
        {
            let ghost tiles0 = self.tile_metas@;
            let ghost c0 = config.data_source.outstanding_requests;
            self.fetch_meta_tile(requested[i], config);
            proof {
                if config.data_source.outstanding_requests < u64::MAX {
                    assert(c0 < u64::MAX);
                    assert forall|j: int| 0 <= j < i implies has_bucket(
                        self.tile_metas@,
                        requested@[j],
                    ) by {
                        lemma_bucket_persists(tiles0, self.tile_metas@, requested@[j]);
                    }
                }
            }
            i += 1;
        }
    }

    /// Stores an arrived slot tile payload, if the tile is still
    /// awaited or cached.
    pub fn store_tile(&mut self, tile_id: TileID, data: SlotTileData)
        requires
            old(self).wf(),
        ensures
            final(self).wf(),
            final(self).entry_id == old(self).entry_id,
            final(self).expanded == old(self).expanded,
            final(self).short_name == old(self).short_name,
            final(self).long_name == old(self).long_name,
            final(self).max_rows == old(self).max_rows,
            final(self).tile_ids == old(self).tile_ids,
            final(self).last_view_interval == old(self).last_view_interval,
            final(self).tiles@.len() == old(self).tiles@.len(),
            forall|k: int|
                0 <= k < old(self).tiles@.len() ==> (#[trigger] final(self).tiles@[k]) == if old(self).tiles@[k].0 == tile_id {
                    (tile_id, Some(data))
                } else {
                    old(self).tiles@[k]
                },
            final(self).tile_metas == old(self).tile_metas,
    {
        let n = self.tiles.len();
        let mut k: usize = 0;
        while k < n
            invariant
                n == self.tiles@.len() == old(self).tiles@.len(),
                0 <= k <= n,
                self.wf(),
                self.entry_id == old(self).entry_id,
                self.expanded == old(self).expanded,
                self.short_name == old(self).short_name,
                self.long_name == old(self).long_name,
                self.max_rows == old(self).max_rows,
                self.tile_ids == old(self).tile_ids,
                self.last_view_interval == old(self).last_view_interval,
                self.tile_metas == old(self).tile_metas,
                forall|j: int|
                    0 <= j < n ==> (#[trigger] self.tiles@[j]) == if j < k && old(self).tiles@[j].0 == tile_id {
                        (tile_id, Some(data))
                    } else {
                        old(self).tiles@[j]
                    },
            decreases n - k,
        {
            if self.tiles[k].0 == tile_id {
                let ghost tiles0 = self.tiles@;
                self.tiles[k] = (tile_id, Some(data));
                proof {
                    assert forall|k1: int, k2: int|
                        0 <= k1 < k2 < self.tiles@.len() implies (#[trigger] self.tiles@[k1]).0
                        != (#[trigger] self.tiles@[k2]).0 by {
                        assert(self.tiles@[k1].0 == tiles0[k1].0);
                        assert(self.tiles@[k2].0 == tiles0[k2].0);
                    }
                }
                return ;
            }
            k += 1;
        }
    }

    /// Stores an arrived metadata payload, if the tile is still awaited
    /// or cached.
    pub fn store_meta_tile(&mut self, tile_id: TileID, data: SlotMetaTileData)
        requires
            old(self).wf(),
        ensures
            final(self).wf(),
            final(self).entry_id == old(self).entry_id,
            final(self).expanded == old(self).expanded,
            final(self).short_name == old(self).short_name,
            final(self).long_name == old(self).long_name,
            final(self).max_rows == old(self).max_rows,
            final(self).tile_ids == old(self).tile_ids,
            final(self).last_view_interval == old(self).last_view_interval,
            final(self).tile_metas@.len() == old(self).tile_metas@.len(),
            forall|k: int|
                0 <= k < old(self).tile_metas@.len() ==> (#[trigger] final(self).tile_metas@[k])
                    == if old(self).tile_metas@[k].0 == tile_id {
                    (tile_id, Some(data))
                } else {
                    old(self).tile_metas@[k]
                },
            final(self).tiles == old(self).tiles,
    {
        let n = self.tile_metas.len();
        let mut k: usize = 0;
        while k < n
            invariant
                n == self.tile_metas@.len() == old(self).tile_metas@.len(),
                0 <= k <= n,
                self.wf(),
                self.entry_id == old(self).entry_id,
                self.expanded == old(self).expanded,
                self.short_name == old(self).short_name,
                self.long_name == old(self).long_name,
                self.max_rows == old(self).max_rows,
                self.tile_ids == old(self).tile_ids,
                self.last_view_interval == old(self).last_view_interval,
                self.tiles == old(self).tiles,
                forall|j: int|
                    0 <= j < n ==> (#[trigger] self.tile_metas@[j]) == if j < k && old(self).tile_metas@[j].0 == tile_id {
                        (tile_id, Some(data))
                    } else {
                        old(self).tile_metas@[j]
                    },
            decreases n - k,
        {
            if self.tile_metas[k].0 == tile_id {
                let ghost tiles0 = self.tile_metas@;
                self.tile_metas[k] = (tile_id, Some(data));
                proof {
                    assert forall|k1: int, k2: int|
                        0 <= k1 < k2 < self.tile_metas@.len() implies (
                    #[trigger] self.tile_metas@[k1]).0 != (#[trigger] self.tile_metas@[k2]).0 by {
                        assert(self.tile_metas@[k1].0 == tiles0[k1].0);
                        assert(self.tile_metas@[k2].0 == tiles0[k2].0);
                    }
                }
                return ;
            }
            k += 1;
        }
    }

    /// The arrived payload for a slot tile, or `None` while the tile is
    /// still awaited or was never requested for the current view.
    pub fn tile_data(&self, tile_id: TileID) -> (r: Option<&SlotTileData>)
        requires
            self.wf(),
        ensures
            r is Some ==> exists|k: int|
                0 <= k < self.tiles@.len() && (#[trigger] self.tiles@[k]).0 == tile_id
                    && self.tiles@[k].1 == Some(*r->Some_0),
            r is None ==> forall|k: int|
                0 <= k < self.tiles@.len() && (#[trigger] self.tiles@[k]).0 == tile_id
                    ==> self.tiles@[k].1 is None,
    {
        let n = self.tiles.len();
        let mut k: usize = 0;
        while k < n
            invariant
                self.wf(),
                n == self.tiles@.len(),
                0 <= k <= n,
                forall|j: int| 0 <= j < k ==> (#[trigger] self.tiles@[j]).0 != tile_id,
            decreases n - k,
        {
            if self.tiles[k].0 == tile_id {
                return match &self.tiles[k].1 {
                    Some(data) => {
                        assert(self.tiles@[k as int].0 == tile_id);
                        assert(self.tiles@[k as int].1 == Some(*data));
                        Some(data)
                    },
                    None => {
                        proof {
                            assert forall|j: int|
                                0 <= j < self.tiles@.len() && (#[trigger] self.tiles@[j]).0
                                    == tile_id implies self.tiles@[j].1 is None by {
                                if j < k as int {
                                    assert(self.tiles@[j].0 != tile_id);
                                } else if j > k as int {
                                    assert(self.tiles@[k as int].0 != self.tiles@[j].0);
                                }
                            }
                        }
                        None
                    },
                };
            }
            k += 1;
        }
        None
    }

    /// The arrived metadata for a tile, or `None` while it is still
    /// awaited or was never requested.
    pub fn meta_tile_data(&self, tile_id: TileID) -> (r: Option<&SlotMetaTileData>)
        requires
            self.wf(),
        ensures
            r is Some ==> exists|k: int|
                0 <= k < self.tile_metas@.len() && (#[trigger] self.tile_metas@[k]).0 == tile_id
                    && self.tile_metas@[k].1 == Some(*r->Some_0),
            r is None ==> forall|k: int|
                0 <= k < self.tile_metas@.len() && (#[trigger] self.tile_metas@[k]).0 == tile_id
                    ==> self.tile_metas@[k].1 is None,
    {
        let n = self.tile_metas.len();
        let mut k: usize = 0;
        while k < n
            invariant
                self.wf(),
                n == self.tile_metas@.len(),
                0 <= k <= n,
                forall|j: int| 0 <= j < k ==> (#[trigger] self.tile_metas@[j]).0 != tile_id,
            decreases n - k,
        {
            if self.tile_metas[k].0 == tile_id {
                return match &self.tile_metas[k].1 {
                    Some(data) => {
                        assert(self.tile_metas@[k as int].0 == tile_id);
                        assert(self.tile_metas@[k as int].1 == Some(*data));
                        Some(data)
                    },
                    None => {
                        proof {
                            assert forall|j: int|
                                0 <= j < self.tile_metas@.len() && (
                                #[trigger] self.tile_metas@[j]).0 == tile_id implies self.tile_metas@[j].1 is None by {
                                if j < k as int {
                                    assert(self.tile_metas@[j].0 != tile_id);
                                } else if j > k as int {
                                    assert(self.tile_metas@[k as int].0 != self.tile_metas@[j].0);
                                }
                            }
                        }
                        None
                    },
                };
            }
            k += 1;
        }
        None
    }

    /// Runs the search over every arrived metadata tile of this slot:
    /// fresh (entry, tile) pairs are scanned row by row and matching
    /// items recorded; pairs already indexed are skipped, so re-running
    /// every frame only looks at newly arrived tiles. The result set
    /// only grows, and unless the cap froze it, every matching item of
    /// every freshly indexed tile is counted.
    pub fn search(&self, search: &mut SearchState)
        requires
            self.wf(),
            old(search).wf(),
        ensures
            final(search).wf(),
            old(search).result_set_view().subset_of(final(search).result_set_view()),
            old(search).result_set_view().len() == MAX_SEARCH_RESULTS ==> final(search).result_set_view() == old(search).result_set_view(),
            final(search).tree_view() == old(search).tree_view(),
            final(search).title_field == old(search).title_field,
            final(search).query == old(search).query,
            final(search).last_query == old(search).last_query,
            final(search).search_field == old(search).search_field,
            final(search).last_search_field == old(search).last_search_field,
            final(search).include_collapsed_entries == old(search).include_collapsed_entries,
            final(search).last_include_collapsed_entries == old(search).last_include_collapsed_entries,
            final(search).last_view_interval == old(search).last_view_interval,
            forall|path: Seq<i64>, t: TileID|
                path != self.entry_id@ ==> #[trigger] cache_has_tile(
                    final(search).cache_view(),
                    path,
                    t,
                ) == cache_has_tile(old(search).cache_view(), path, t),
            slot_fresh_tiles_indexed(
                *final(search),
                old(search).cache_view(),
                *self,
                old(search).search_field,
                old(search).title_field,
                old(search).query@,
            ),
            crate::search::records_preserved(
                old(search).cache_view(),
                final(search).cache_view(),
            ),
            forall|uid: u64|
                final(search).result_set_view().contains(uid) && !old(search).result_set_view().contains(uid) ==> slot_new_result_recorded(
                    *final(search),
                    *self,
                    uid,
                    old(search).search_field,
                    old(search).title_field,
                    old(search).query@,
                ),
            forall|u: int|
                0 <= u < self.tile_metas@.len() && (#[trigger] self.tile_metas@[u]).1 is None
                    ==> cache_has_tile(
                    final(search).cache_view(),
                    self.entry_id@,
                    self.tile_metas@[u].0,
                ) == cache_has_tile(
                    old(search).cache_view(),
                    self.entry_id@,
                    self.tile_metas@[u].0,
                ),
    {
        proof {
            assert(searchable_entry(self.entry_id@));
        }
        if !search.start_entry(&self.entry_id) {
            proof {
                assert(search.result_set_view().len() == MAX_SEARCH_RESULTS);
            }
            return ;
        }
        let n = self.tile_metas.len();
        let mut t: usize = 0;
        while t < n
            invariant
                n == self.tile_metas@.len(),
                0 <= t <= n,
                self.wf(),
                search.wf(),
                old(search).result_set_view().subset_of(search.result_set_view()),
                old(search).result_set_view().len() == MAX_SEARCH_RESULTS
                    ==> search.result_set_view() == old(search).result_set_view(),
                search.tree_view() == old(search).tree_view(),
                search.title_field == old(search).title_field,
                search.query == old(search).query,
                search.last_query == old(search).last_query,
                search.search_field == old(search).search_field,
                search.last_search_field == old(search).last_search_field,
                search.include_collapsed_entries == old(search).include_collapsed_entries,
                search.last_include_collapsed_entries == old(search).last_include_collapsed_entries,
                search.last_view_interval == old(search).last_view_interval,
                cache_has_entry(search.cache_view(), self.entry_id@),
                forall|path: Seq<i64>, tt: TileID|
                    path != self.entry_id@ ==> #[trigger] cache_has_tile(
                        search.cache_view(),
                        path,
                        tt,
                    ) == cache_has_tile(old(search).cache_view(), path, tt),
                forall|u: int|
                    0 <= u < n && (t <= u || self.tile_metas@[u].1 is None)
                        ==> #[trigger] cache_has_tile(
                        search.cache_view(),
                        self.entry_id@,
                        self.tile_metas@[u].0,
                    ) == cache_has_tile(
                        old(search).cache_view(),
                        self.entry_id@,
                        self.tile_metas@[u].0,
                    ),
                forall|u: int|
                    0 <= u < t && (#[trigger] self.tile_metas@[u]).1 is Some && !cache_has_tile(
                        old(search).cache_view(),
                        self.entry_id@,
                        self.tile_metas@[u].0,
                    ) ==> meta_tile_indexed(
                        *search,
                        self.tile_metas@[u].1->Some_0,
                        old(search).search_field,
                        old(search).title_field,
                        old(search).query@,
                    ),
                crate::search::records_preserved(
                    old(search).cache_view(),
                    search.cache_view(),
                ),
                forall|uid: u64|
                    search.result_set_view().contains(uid) && !old(search).result_set_view().contains(uid) ==> slot_new_result_recorded(
                        *search,
                        *self,
                        uid,
                        old(search).search_field,
                        old(search).title_field,
                        old(search).query@,
                    ),
            decreases n - t,
        {
            let ghost search_before = *search;
            let (tile_id, tile) = &self.tile_metas[t];
            match tile {
                Some(tile_data) => {
                    search_tile(search, &self.entry_id, *tile_id, tile_data);
                },
                None => {},
            }
            proof {
                assert forall|u: int|
                    0 <= u < t + 1 && (#[trigger] self.tile_metas@[u]).1 is Some
                        && !cache_has_tile(
                        old(search).cache_view(),
                        self.entry_id@,
                        self.tile_metas@[u].0,
                    ) implies meta_tile_indexed(
                    *search,
                    self.tile_metas@[u].1->Some_0,
                    old(search).search_field,
                    old(search).title_field,
                    old(search).query@,
                ) by {
                    if u < t {
                        lemma_meta_indexed_persists(
                            search_before,
                            *search,
                            self.tile_metas@[u].1->Some_0,
                            old(search).search_field,
                            old(search).title_field,
                            old(search).query@,
                        );
                    }
                }
                assert forall|u: int|
                    0 <= u < n && (t + 1 <= u || self.tile_metas@[u].1 is None) implies #[trigger] cache_has_tile(
                    search.cache_view(),
                    self.entry_id@,
                    self.tile_metas@[u].0,
                ) == cache_has_tile(
                    old(search).cache_view(),
                    self.entry_id@,
                    self.tile_metas@[u].0,
                ) by {
                    if u != t {
                        assert(self.tile_metas@[u].0 != self.tile_metas@[t as int].0);
                    }
                }
                // New identifiers are attributed to a recorded match:
                // earlier attributions survive this step's growth, and
                // this tile's fresh matches carry its own attribution.
                assert forall|uid: u64|
                    search.result_set_view().contains(uid) && !old(search).result_set_view().contains(uid) implies slot_new_result_recorded(
                    *search,
                    *self,
                    uid,
                    old(search).search_field,
                    old(search).title_field,
                    old(search).query@,
                ) by {
                    if search_before.result_set_view().contains(uid) {
                        let tw = choose|tw: int|
                            0 <= tw < self.tile_metas@.len() && (
                            #[trigger] self.tile_metas@[tw]).1 is Some
                                && tile_new_result_recorded(
                                search_before,
                                self.entry_id@,
                                self.tile_metas@[tw].0,
                                self.tile_metas@[tw].1->Some_0,
                                uid,
                                old(search).search_field,
                                old(search).title_field,
                                old(search).query@,
                            );
                        lemma_tile_recorded_persists(
                            search_before,
                            *search,
                            self.entry_id@,
                            self.tile_metas@[tw].0,
                            self.tile_metas@[tw].1->Some_0,
                            uid,
                            old(search).search_field,
                            old(search).title_field,
                            old(search).query@,
                        );
                        assert(slot_new_result_recorded(
                            *search,
                            *self,
                            uid,
                            old(search).search_field,
                            old(search).title_field,
                            old(search).query@,
                        ));
                    } else {
                        assert(tile_new_result_recorded(
                            *search,
                            self.entry_id@,
                            self.tile_metas@[t as int].0,
                            self.tile_metas@[t as int].1->Some_0,
                            uid,
                            old(search).search_field,
                            old(search).title_field,
                            old(search).query@,
                        ));
                        assert(self.tile_metas@[t as int].1 is Some);
                    }
                }
            }
            t += 1;
        }
    }
}

/// Scans one arrived metadata tile for the search: a fresh
/// (entry, tile) pair is walked row by row with every matching item
/// recorded; a pair already indexed, or a walk cut short by the cap, is
/// skipped. The result set only grows.
fn search_tile(
    search: &mut SearchState,
    entry_id: &EntryID,
    tile_id: TileID,
    data: &SlotMetaTileData,
)
    requires
        old(search).wf(),
        searchable_entry(entry_id@),
        cache_has_entry(old(search).cache_view(), entry_id@),
    ensures
        final(search).wf(),
        old(search).result_set_view().subset_of(final(search).result_set_view()),
        old(search).result_set_view().len() == MAX_SEARCH_RESULTS ==> final(search).result_set_view() == old(search).result_set_view(),
        cache_has_entry(final(search).cache_view(), entry_id@),
        final(search).tree_view() == old(search).tree_view(),
        final(search).title_field == old(search).title_field,
        final(search).query == old(search).query,
        final(search).last_query == old(search).last_query,
        final(search).search_field == old(search).search_field,
        final(search).last_search_field == old(search).last_search_field,
        final(search).include_collapsed_entries == old(search).include_collapsed_entries,
        final(search).last_include_collapsed_entries == old(search).last_include_collapsed_entries,
        final(search).last_view_interval == old(search).last_view_interval,
        forall|path: Seq<i64>, t: TileID|
            !(path == entry_id@ && t == tile_id) ==> #[trigger] cache_has_tile(
                final(search).cache_view(),
                path,
                t,
            ) == cache_has_tile(old(search).cache_view(), path, t),
        crate::search::records_preserved(old(search).cache_view(), final(search).cache_view()),
        !cache_has_tile(old(search).cache_view(), entry_id@, tile_id) ==> meta_tile_indexed(
            *final(search),
            *data,
            old(search).search_field,
            old(search).title_field,
            old(search).query@,
        ),
        forall|uid: u64|
            final(search).result_set_view().contains(uid) && !old(search).result_set_view().contains(uid) ==> tile_new_result_recorded(
                *final(search),
                entry_id@,
                tile_id,
                *data,
                uid,
                old(search).search_field,
                old(search).title_field,
                old(search).query@,
            ),
{
    if search.start_tile(entry_id, tile_id) {
        let rows = data.items.len();
        let mut row: usize = 0;
        while row < rows
            invariant
                rows == data.items@.len(),
                0 <= row <= rows,
                search.wf(),
                old(search).result_set_view().subset_of(search.result_set_view()),
                old(search).result_set_view().len() == MAX_SEARCH_RESULTS
                    ==> search.result_set_view() == old(search).result_set_view(),
                cache_has_entry(search.cache_view(), entry_id@),
                cache_has_tile(search.cache_view(), entry_id@, tile_id),
                search.tree_view() == old(search).tree_view(),
                search.title_field == old(search).title_field,
                search.query == old(search).query,
                search.last_query == old(search).last_query,
                search.search_field == old(search).search_field,
                search.last_search_field == old(search).last_search_field,
                search.include_collapsed_entries == old(search).include_collapsed_entries,
                search.last_include_collapsed_entries == old(search).last_include_collapsed_entries,
                search.last_view_interval == old(search).last_view_interval,
                forall|path: Seq<i64>, t: TileID|
                    !(path == entry_id@ && t == tile_id) ==> #[trigger] cache_has_tile(
                        search.cache_view(),
                        path,
                        t,
                    ) == cache_has_tile(old(search).cache_view(), path, t),
                crate::search::records_preserved(
                    old(search).cache_view(),
                    search.cache_view(),
                ),
                forall|uid: u64|
                    search.result_set_view().contains(uid) && !old(search).result_set_view().contains(uid) ==> tile_new_result_recorded(
                        *search,
                        entry_id@,
                        tile_id,
                        *data,
                        uid,
                        old(search).search_field,
                        old(search).title_field,
                        old(search).query@,
                    ),
                forall|r: int, x: int|
                    0 <= r < row && 0 <= x < data.items@[r]@.len() && item_matches(
                        #[trigger] data.items@[r]@[x],
                        old(search).search_field,
                        old(search).title_field,
                        old(search).query@,
                    ) ==> search.result_set_view().contains(data.items@[r]@[x].item_uid.0)
                        || search.result_set_view().len() == MAX_SEARCH_RESULTS,
            decreases rows - row,
        {
            let row_items = &data.items[row];
            let m = row_items.len();
            let mut x: usize = 0;
            while x < m
                invariant
                    rows == data.items@.len(),
                    row < rows,
                    m == data.items@[row as int]@.len(),
                    row_items@ == data.items@[row as int]@,
                    0 <= x <= m,
                    search.wf(),
                    old(search).result_set_view().subset_of(search.result_set_view()),
                    old(search).result_set_view().len() == MAX_SEARCH_RESULTS
                        ==> search.result_set_view() == old(search).result_set_view(),
                    cache_has_entry(search.cache_view(), entry_id@),
                    cache_has_tile(search.cache_view(), entry_id@, tile_id),
                    search.tree_view() == old(search).tree_view(),
                    search.title_field == old(search).title_field,
                    search.query == old(search).query,
                    search.last_query == old(search).last_query,
                    search.search_field == old(search).search_field,
                    search.last_search_field == old(search).last_search_field,
                    search.include_collapsed_entries == old(search).include_collapsed_entries,
                    search.last_include_collapsed_entries == old(search).last_include_collapsed_entries,
                    search.last_view_interval == old(search).last_view_interval,
                    forall|path: Seq<i64>, t: TileID|
                        !(path == entry_id@ && t == tile_id) ==> #[trigger] cache_has_tile(
                            search.cache_view(),
                            path,
                            t,
                        ) == cache_has_tile(old(search).cache_view(), path, t),
                    crate::search::records_preserved(
                        old(search).cache_view(),
                        search.cache_view(),
                    ),
                    forall|uid: u64|
                        search.result_set_view().contains(uid) && !old(search).result_set_view().contains(uid) ==> tile_new_result_recorded(
                            *search,
                            entry_id@,
                            tile_id,
                            *data,
                            uid,
                            old(search).search_field,
                            old(search).title_field,
                            old(search).query@,
                        ),
                    forall|r: int, xx: int|
                        0 <= r < row && 0 <= xx < data.items@[r]@.len() && item_matches(
                            #[trigger] data.items@[r]@[xx],
                            old(search).search_field,
                            old(search).title_field,
                            old(search).query@,
                        ) ==> search.result_set_view().contains(data.items@[r]@[xx].item_uid.0)
                            || search.result_set_view().len() == MAX_SEARCH_RESULTS,
                    forall|xx: int|
                        0 <= xx < x && item_matches(
                            #[trigger] data.items@[row as int]@[xx],
                            old(search).search_field,
                            old(search).title_field,
                            old(search).query@,
                        ) ==> search.result_set_view().contains(
                            data.items@[row as int]@[xx].item_uid.0,
                        ) || search.result_set_view().len() == MAX_SEARCH_RESULTS,
                decreases m - x,
            {
                let ghost before = *search;
                let item = &row_items[x];
                if search.is_match(item) {
                    // Reverse rows: row indexes are counted in screen
                    // space.
                    let irow = rows - row - 1;
                    search.insert(entry_id, tile_id, irow, item);
                }
                proof {
                    assert(before.result_set_view().subset_of(search.result_set_view()));
                    assert(before.result_set_view().len() == MAX_SEARCH_RESULTS
                        ==> search.result_set_view() == before.result_set_view());
                    assert forall|uid: u64|
                        search.result_set_view().contains(uid) && !old(search).result_set_view().contains(uid) implies tile_new_result_recorded(
                        *search,
                        entry_id@,
                        tile_id,
                        *data,
                        uid,
                        old(search).search_field,
                        old(search).title_field,
                        old(search).query@,
                    ) by {
                        if before.result_set_view().contains(uid) {
                            // Attributed earlier; the record survives
                            // the step.
                            let (r, xx) = choose|r: int, xx: int|
                                0 <= r < data.items@.len() && 0 <= xx < data.items@[r]@.len()
                                    && (#[trigger] data.items@[r]@[xx]).item_uid.0 == uid
                                    && item_matches(
                                    data.items@[r]@[xx],
                                    old(search).search_field,
                                    old(search).title_field,
                                    old(search).query@,
                                ) && crate::search::cache_has_record(
                                    before.cache_view(),
                                    entry_id@,
                                    tile_id,
                                    (SearchCacheItem {
                                        item_uid: data.items@[r]@[xx].item_uid,
                                        title: data.items@[r]@[xx].title,
                                        interval: data.items@[r]@[xx].original_interval,
                                        irow: (data.items@.len() - 1 - r) as usize,
                                    }),
                                );
                            assert(crate::search::cache_has_record(
                                search.cache_view(),
                                entry_id@,
                                tile_id,
                                (SearchCacheItem {
                                    item_uid: data.items@[r]@[xx].item_uid,
                                    title: data.items@[r]@[xx].title,
                                    interval: data.items@[r]@[xx].original_interval,
                                    irow: (data.items@.len() - 1 - r) as usize,
                                }),
                            ));
                        } else {
                            // Counted just now: the inserted record is
                            // this item's, with the reversed row.
                            assert(uid == data.items@[row as int]@[x as int].item_uid.0);
                            assert(item_matches(
                                data.items@[row as int]@[x as int],
                                old(search).search_field,
                                old(search).title_field,
                                old(search).query@,
                            ));
                            assert(crate::search::cache_has_record(
                                search.cache_view(),
                                entry_id@,
                                tile_id,
                                (SearchCacheItem {
                                    item_uid: data.items@[row as int]@[x as int].item_uid,
                                    title: data.items@[row as int]@[x as int].title,
                                    interval: data.items@[row as int]@[x as int].original_interval,
                                    irow: (data.items@.len() - 1 - row) as usize,
                                }),
                            ));
                        }
                    }
                }
                x += 1;
            }
            row += 1;
        }
        proof {
            if search.result_set_view().len() != MAX_SEARCH_RESULTS {
                assert forall|r: int, x: int|
                    0 <= r < data.items@.len() && 0 <= x < data.items@[r]@.len() && item_matches(
                        #[trigger] data.items@[r]@[x],
                        old(search).search_field,
                        old(search).title_field,
                        old(search).query@,
                    ) implies search.result_set_view().contains(
                    data.items@[r]@[x].item_uid.0,
                ) by {}
            }
        }
    } else {
        proof {
            if !cache_has_tile(old(search).cache_view(), entry_id@, tile_id) {
                assert(old(search).result_set_view().len() >= MAX_SEARCH_RESULTS);
                assert(old(search).result_set_view().len() == MAX_SEARCH_RESULTS);
            }
        }
    }
}

/// The schema shape a kind-level panel is built from: a panel whose
/// children are all slots.
pub open spec fn kind_schema_wf(info: EntryInfo) -> bool {
    &&& info.is_panel()
    &&& info.panel_slots().len() <= i64::MAX
    &&& forall|i: int|
        0 <= i < info.panel_slots().len() ==> is_slot_leaf(#[trigger] info.panel_slots()[i])
    &&& summary_schema_ok(info.panel_summary())
}

/// The schema shape a node-level panel is built from: a panel of
/// kind-level panels.
pub open spec fn node_schema_wf(info: EntryInfo) -> bool {
    &&& info.is_panel()
    &&& info.panel_slots().len() <= i64::MAX
    &&& forall|i: int| 0 <= i < info.panel_slots().len() ==> kind_schema_wf(#[trigger] info.panel_slots()[i])
    &&& summary_schema_ok(info.panel_summary())
}

/// The schema shape the root panel is built from: a panel of node-level
/// panels.
pub open spec fn root_schema_wf(info: EntryInfo) -> bool {
    &&& info.is_panel()
    &&& info.panel_slots().len() <= i64::MAX
    &&& forall|i: int| 0 <= i < info.panel_slots().len() ==> node_schema_wf(#[trigger] info.panel_slots()[i])
    &&& summary_schema_ok(info.panel_summary())
}

impl KindPanel {
    /// A kind panel sits at the second level; its slots carry its path
    /// extended by their index, and its summary the sentinel.
    pub open spec fn wf(&self) -> bool {
        &&& self.entry_id@.len() == 2
        &&& self.entry_id.is_slot_path()
        &&& self.slots@.len() <= i64::MAX
        &&& forall|i: int|
            0 <= i < self.slots@.len() ==> (#[trigger] self.slots@[i]).wf()
                && self.slots@[i].entry_id@ == self.entry_id@.push(i as i64)
        &&& summary_child_ok(self.summary, self.entry_id@)
    }

    pub fn new(info: &EntryInfo, entry_id: EntryID) -> (r: Self)
        requires
            kind_schema_wf(*info),
            entry_id@.len() == 2,
            entry_id.is_slot_path(),
        ensures
            r.wf(),
            r.entry_id@ == entry_id@,
            r.expanded == false,
            r.slots@.len() == info.panel_slots().len(),
    {
        match info {
            EntryInfo::Panel { short_name, long_name, summary, slots } => {
                assert(info.panel_slots() == slots@);
                let summary_node = match summary {
                    Some(boxed) => match &**boxed {
                        EntryInfo::Summary { color } => Some(
                            Summary::new(*color, entry_id.summary()),
                        ),
                        _ => None,
                    },
                    None => None,
                };
                let n = slots.len();
                let mut built: Vec<Slot> = Vec::new();
                let mut i: usize = 0;
                while i < n
                    invariant
                        n == slots@.len() <= i64::MAX,
                        0 <= i <= n,
                        entry_id@.len() == 2,
                        entry_id.is_slot_path(),
                        forall|k: int| 0 <= k < n ==> is_slot_leaf(#[trigger] slots@[k]),
                        built@.len() == i,
                        forall|k: int|
                            0 <= k < i ==> (#[trigger] built@[k]).wf() && built@[k].entry_id@
                                == entry_id@.push(k as i64),
                    decreases n - i,
                {
                    match &slots[i] {
                        EntryInfo::Slot { short_name: sn, long_name: ln, max_rows } => {
                            let child_id = entry_id.child(i as u64);
                            built.push(Slot::new(sn.clone(), ln.clone(), *max_rows, child_id));
                        },
                        _ => {
                            proof {
                                assert(false);
                            }
                        },
                    }
                    i += 1;
                }
                KindPanel {
                    entry_id,
                    short_name: short_name.clone(),
                    long_name: long_name.clone(),
                    expanded: false,
                    summary: summary_node,
                    slots: built,
                }
            },
            _ => {
                proof {
                    assert(false);
                }
                KindPanel {
                    entry_id,
                    short_name: String::new(),
                    long_name: String::new(),
                    expanded: false,
                    summary: None,
                    slots: Vec::new(),
                }
            },
        }
    }
}

impl KindPanel {
    /// Requests metadata for every slot of this kind: search needs the
    /// items' titles and fields, which the lighter slot tiles lack.
    /// Collapsed kinds are skipped unless the search includes them.
    pub fn inflate_meta_all<D: DeferredDataSource>(
        &mut self,
        config: &mut Config<D>,
        view_interval: Interval,
        force: bool,
    )
        requires
            old(self).wf(),
            old(config).wf(),
            view_interval.wf(),
        ensures
            final(self).wf(),
            final(self).entry_id == old(self).entry_id,
            kind_meta_inflated(
                *old(self),
                *final(self),
                old(config).tile_set,
                view_interval,
                force,
                final(config).data_source.outstanding_requests < u64::MAX,
            ),
            old(config).data_source.outstanding_requests <= final(config).data_source.outstanding_requests,
            final(config).wf(),
            final(config).tile_set == old(config).tile_set,
            final(config).search_state == old(config).search_state,
    {
        if !self.expanded && !force {
            return ;
        }
        let n = self.slots.len();
        let mut i: usize = 0;
        while i < n
            invariant
                n == self.slots@.len() == old(self).slots@.len(),
                0 <= i <= n,
                self.wf(),
                self.entry_id == old(self).entry_id,
                self.expanded == old(self).expanded,
                self.short_name == old(self).short_name,
                self.long_name == old(self).long_name,
                self.summary == old(self).summary,
                view_interval.wf(),
                forall|k: int|
                    0 <= k < i ==> slot_meta_inflated(
                        #[trigger] old(self).slots@[k],
                        self.slots@[k],
                        old(config).tile_set,
                        view_interval,
                        config.data_source.outstanding_requests < u64::MAX,
                    ),
                forall|k: int| i <= k < n ==> #[trigger] self.slots@[k] == old(self).slots@[k],
                old(config).data_source.outstanding_requests <= config.data_source.outstanding_requests,
                config.wf(),
                config.tile_set == old(config).tile_set,
                config.search_state == old(config).search_state,
            decreases n - i,
        {
            let ghost slots0 = self.slots@;
            let ghost c0 = config.data_source.outstanding_requests;
            let slot = &mut self.slots[i];
            slot.inflate_meta(config, view_interval);
            proof {
                let s2 = *final(slot);
                assert(self.slots@ =~= slots0.update(i as int, s2));
                assert forall|k: int| 0 <= k < self.slots@.len() implies (
                #[trigger] self.slots@[k]).wf() && self.slots@[k].entry_id@
                    == self.entry_id@.push(k as i64) by {
                    if k != i {
                        assert(self.slots@[k] == slots0[k]);
                    }
                }
                assert forall|k: int| 0 <= k < i + 1 implies slot_meta_inflated(
                    #[trigger] old(self).slots@[k],
                    self.slots@[k],
                    old(config).tile_set,
                    view_interval,
                    config.data_source.outstanding_requests < u64::MAX,
                ) by {
                    if k != i {
                        assert(self.slots@[k] == slots0[k]);
                        if !(config.data_source.outstanding_requests < u64::MAX) {
                            lemma_slot_meta_inflated_relax(
                                old(self).slots@[k],
                                self.slots@[k],
                                old(config).tile_set,
                                view_interval,
                                c0 < u64::MAX,
                            );
                        }
                    }
                }
            }
            i += 1;
        }
    }

    /// Runs the search over every slot of this kind. Collapsed kinds
    /// are skipped unless the search includes them. The result set only
    /// grows, and unless the cap froze it, every fresh arrived tile of
    /// every slot here ends up indexed.
    pub fn search_all(&self, search: &mut SearchState, force: bool)
        requires
            self.wf(),
            old(search).wf(),
        ensures
            final(search).wf(),
            old(search).result_set_view().subset_of(final(search).result_set_view()),
            old(search).result_set_view().len() == MAX_SEARCH_RESULTS ==> final(search).result_set_view() == old(search).result_set_view(),
            final(search).tree_view() == old(search).tree_view(),
            final(search).title_field == old(search).title_field,
            final(search).query == old(search).query,
            final(search).last_query == old(search).last_query,
            final(search).search_field == old(search).search_field,
            final(search).last_search_field == old(search).last_search_field,
            final(search).include_collapsed_entries == old(search).include_collapsed_entries,
            final(search).last_include_collapsed_entries == old(search).last_include_collapsed_entries,
            final(search).last_view_interval == old(search).last_view_interval,
            forall|path: Seq<i64>, t: TileID|
                !(path.len() == 3 && path[0] == self.entry_id@[0] && path[1]
                    == self.entry_id@[1]) ==> #[trigger] cache_has_tile(
                    final(search).cache_view(),
                    path,
                    t,
                ) == cache_has_tile(old(search).cache_view(), path, t),
            kind_scope_indexed(
                *final(search),
                old(search).cache_view(),
                *self,
                force,
                old(search).search_field,
                old(search).title_field,
                old(search).query@,
            ),
            crate::search::records_preserved(
                old(search).cache_view(),
                final(search).cache_view(),
            ),
            forall|uid: u64|
                final(search).result_set_view().contains(uid) && !old(search).result_set_view().contains(uid) ==> kind_new_result_recorded(
                    *final(search),
                    *self,
                    uid,
                    old(search).search_field,
                    old(search).title_field,
                    old(search).query@,
                ),
    {
        if !self.expanded && !force {
            return ;
        }
        let n = self.slots.len();
        let mut i: usize = 0;
        while i < n
            invariant
                n == self.slots@.len(),
                0 <= i <= n,
                self.wf(),
                search.wf(),
                old(search).result_set_view().subset_of(search.result_set_view()),
                old(search).result_set_view().len() == MAX_SEARCH_RESULTS
                    ==> search.result_set_view() == old(search).result_set_view(),
                search.tree_view() == old(search).tree_view(),
                search.title_field == old(search).title_field,
                search.query == old(search).query,
                search.last_query == old(search).last_query,
                search.search_field == old(search).search_field,
                search.last_search_field == old(search).last_search_field,
                search.include_collapsed_entries == old(search).include_collapsed_entries,
                search.last_include_collapsed_entries == old(search).last_include_collapsed_entries,
                search.last_view_interval == old(search).last_view_interval,
                forall|path: Seq<i64>, t: TileID|
                    !(exists|i2: int|
                        0 <= i2 < i && path == (#[trigger] self.slots@[i2]).entry_id@)
                        ==> #[trigger] cache_has_tile(search.cache_view(), path, t)
                        == cache_has_tile(old(search).cache_view(), path, t),
                forall|i2: int|
                    0 <= i2 < i ==> slot_fresh_tiles_indexed(
                        *search,
                        old(search).cache_view(),
                        #[trigger] self.slots@[i2],
                        old(search).search_field,
                        old(search).title_field,
                        old(search).query@,
                    ),
                crate::search::records_preserved(
                    old(search).cache_view(),
                    search.cache_view(),
                ),
                forall|uid: u64|
                    search.result_set_view().contains(uid) && !old(search).result_set_view().contains(uid) ==> kind_new_result_recorded(
                        *search,
                        *self,
                        uid,
                        old(search).search_field,
                        old(search).title_field,
                        old(search).query@,
                    ),
            decreases n - i,
        {
            let ghost search_before = *search;
            let slot = &self.slots[i];
            proof {
                assert forall|t: TileID| #[trigger]
                    cache_has_tile(search.cache_view(), slot.entry_id@, t) == cache_has_tile(
                    old(search).cache_view(),
                    slot.entry_id@,
                    t,
                ) by {
                    assert forall|i2: int| 0 <= i2 < i implies slot.entry_id@ != (
                    #[trigger] self.slots@[i2]).entry_id@ by {
                        assert(self.slots@[i2].entry_id@ == self.entry_id@.push(i2 as i64));
                        assert(slot.entry_id@ == self.entry_id@.push(i as i64));
                        assert(self.slots@[i2].entry_id@[2] == i2 as i64);
                        assert(slot.entry_id@[2] == i as i64);
                    }
                }
            }
            slot.search(search);
            proof {
                // The just-searched slot: translate freshness from the
                // cache it saw to the cache this pass started from.
                lemma_fresh_base_equiv(
                    *search,
                    search_before.cache_view(),
                    old(search).cache_view(),
                    *slot,
                    old(search).search_field,
                    old(search).title_field,
                    old(search).query@,
                );
                // Earlier slots stay indexed as the results grow.
                assert forall|i2: int| 0 <= i2 < i + 1 implies slot_fresh_tiles_indexed(
                    *search,
                    old(search).cache_view(),
                    #[trigger] self.slots@[i2],
                    old(search).search_field,
                    old(search).title_field,
                    old(search).query@,
                ) by {
                    if i2 < i {
                        lemma_slot_indexed_persists(
                            search_before,
                            *search,
                            old(search).cache_view(),
                            self.slots@[i2],
                            old(search).search_field,
                            old(search).title_field,
                            old(search).query@,
                        );
                    }
                }
                // Buckets changed only for the searched slots' entries.
                assert forall|path: Seq<i64>, t: TileID|
                    !(exists|i2: int|
                        0 <= i2 < i + 1 && path == (#[trigger] self.slots@[i2]).entry_id@) implies #[trigger] cache_has_tile(
                    search.cache_view(),
                    path,
                    t,
                ) == cache_has_tile(old(search).cache_view(), path, t) by {
                    assert(path != slot.entry_id@);
                }
                // New identifiers trace to a recorded match in one of
                // this kind's slots.
                assert forall|uid: u64|
                    search.result_set_view().contains(uid) && !old(search).result_set_view().contains(uid) implies kind_new_result_recorded(
                    *search,
                    *self,
                    uid,
                    old(search).search_field,
                    old(search).title_field,
                    old(search).query@,
                ) by {
                    if search_before.result_set_view().contains(uid) {
                        let i2 = choose|i2: int|
                            0 <= i2 < self.slots@.len() && slot_new_result_recorded(
                                search_before,
                                #[trigger] self.slots@[i2],
                                uid,
                                old(search).search_field,
                                old(search).title_field,
                                old(search).query@,
                            );
                        lemma_slot_recorded_persists(
                            search_before,
                            *search,
                            self.slots@[i2],
                            uid,
                            old(search).search_field,
                            old(search).title_field,
                            old(search).query@,
                        );
                    } else {
                        assert(slot_new_result_recorded(
                            *search,
                            self.slots@[i as int],
                            uid,
                            old(search).search_field,
                            old(search).title_field,
                            old(search).query@,
                        ));
                    }
                }
            }
            i += 1;
        }
        proof {
            assert forall|path: Seq<i64>, t: TileID|
                !(path.len() == 3 && path[0] == self.entry_id@[0] && path[1]
                    == self.entry_id@[1]) implies #[trigger] cache_has_tile(
                search.cache_view(),
                path,
                t,
            ) == cache_has_tile(old(search).cache_view(), path, t) by {
                assert forall|i2: int| 0 <= i2 < n implies path != (
                #[trigger] self.slots@[i2]).entry_id@ by {
                    assert(self.slots@[i2].entry_id@ == self.entry_id@.push(i2 as i64));
                    assert(self.slots@[i2].entry_id@.len() == 3);
                    assert(self.slots@[i2].entry_id@[0] == self.entry_id@[0]);
                    assert(self.slots@[i2].entry_id@[1] == self.entry_id@[1]);
                }
            }
        }
    }

    /// Clears and refills the tile caches of this kind's summary and
    /// expanded slots for the given view; runs once per frame before
    /// drawing.
    pub fn prepare_all<D: DeferredDataSource>(
        &mut self,
        config: &mut Config<D>,
        view_interval: Interval,
    )
        requires
            old(self).wf(),
            old(config).wf(),
            view_interval.wf(),
        ensures
            final(self).wf(),
            final(self).entry_id == old(self).entry_id,
            kind_prepared(
                *old(self),
                *final(self),
                old(config).tile_set,
                view_interval,
                final(config).data_source.outstanding_requests < u64::MAX,
            ),
            old(config).data_source.outstanding_requests <= final(config).data_source.outstanding_requests,
            final(config).wf(),
            final(config).tile_set == old(config).tile_set,
            final(config).search_state == old(config).search_state,
    {
        match &mut self.summary {
            Some(summary) => {
                summary.prepare(config, view_interval);
                proof {
                    assert(final(summary).entry_id@ == self.entry_id@.push(-1i64));
                    assert(self.summary == Some(*final(summary)));
                }
            },
            None => {},
        }
        if !self.expanded {
            return ;
        }
        let n = self.slots.len();
        let mut i: usize = 0;
        while i < n
            invariant
                n == self.slots@.len() == old(self).slots@.len(),
                0 <= i <= n,
                self.wf(),
                self.entry_id == old(self).entry_id,
                self.expanded == old(self).expanded,
                self.short_name == old(self).short_name,
                self.long_name == old(self).long_name,
                option_summary_prepared(
                    old(self).summary,
                    self.summary,
                    old(config).tile_set,
                    view_interval,
                    config.data_source.outstanding_requests < u64::MAX,
                ),
                view_interval.wf(),
                forall|k: int|
                    0 <= k < i ==> slot_prepared(
                        #[trigger] old(self).slots@[k],
                        self.slots@[k],
                        old(config).tile_set,
                        view_interval,
                        config.data_source.outstanding_requests < u64::MAX,
                    ),
                forall|k: int| i <= k < n ==> #[trigger] self.slots@[k] == old(self).slots@[k],
                old(config).data_source.outstanding_requests <= config.data_source.outstanding_requests,
                config.wf(),
                config.tile_set == old(config).tile_set,
                config.search_state == old(config).search_state,
            decreases n - i,
        {
            let ghost slots0 = self.slots@;
            let ghost c0 = config.data_source.outstanding_requests;
            let slot = &mut self.slots[i];
            slot.prepare(config, view_interval);
            proof {
                let s2 = *final(slot);
                assert(self.slots@ =~= slots0.update(i as int, s2));
                assert forall|k: int| 0 <= k < self.slots@.len() implies (
                #[trigger] self.slots@[k]).wf() && self.slots@[k].entry_id@
                    == self.entry_id@.push(k as i64) by {
                    if k != i {
                        assert(self.slots@[k] == slots0[k]);
                    }
                }
                if !(config.data_source.outstanding_requests < u64::MAX) {
                    lemma_option_summary_prepared_relax(
                        old(self).summary,
                        self.summary,
                        old(config).tile_set,
                        view_interval,
                        c0 < u64::MAX,
                    );
                }
                assert forall|k: int| 0 <= k < i + 1 implies slot_prepared(
                    #[trigger] old(self).slots@[k],
                    self.slots@[k],
                    old(config).tile_set,
                    view_interval,
                    config.data_source.outstanding_requests < u64::MAX,
                ) by {
                    if k != i {
                        assert(self.slots@[k] == slots0[k]);
                        if !(config.data_source.outstanding_requests < u64::MAX) {
                            lemma_slot_prepared_relax(
                                old(self).slots@[k],
                                self.slots@[k],
                                old(config).tile_set,
                                view_interval,
                                c0 < u64::MAX,
                            );
                        }
                    }
                }
            }
            i += 1;
        }
    }
}

impl NodePanel {
    /// A node panel sits at the first level; its kinds carry its path
    /// extended by their index.
    pub open spec fn wf(&self) -> bool {
        &&& self.entry_id@.len() == 1
        &&& self.entry_id.is_slot_path()
        &&& self.kinds@.len() <= i64::MAX
        &&& forall|i: int|
            0 <= i < self.kinds@.len() ==> (#[trigger] self.kinds@[i]).wf()
                && self.kinds@[i].entry_id@ == self.entry_id@.push(i as i64)
        &&& summary_child_ok(self.summary, self.entry_id@)
    }

    pub fn new(info: &EntryInfo, entry_id: EntryID) -> (r: Self)
        requires
            node_schema_wf(*info),
            entry_id@.len() == 1,
            entry_id.is_slot_path(),
        ensures
            r.wf(),
            r.entry_id@ == entry_id@,
            r.kinds@.len() == info.panel_slots().len(),
    {
        match info {
            EntryInfo::Panel { short_name, long_name, summary, slots } => {
                assert(info.panel_slots() == slots@);
                let summary_node = match summary {
                    Some(boxed) => match &**boxed {
                        EntryInfo::Summary { color } => Some(
                            Summary::new(*color, entry_id.summary()),
                        ),
                        _ => None,
                    },
                    None => None,
                };
                let n = slots.len();
                let mut built: Vec<KindPanel> = Vec::new();
                let mut i: usize = 0;
                while i < n
                    invariant
                        n == slots@.len() <= i64::MAX,
                        0 <= i <= n,
                        entry_id@.len() == 1,
                        entry_id.is_slot_path(),
                        forall|k: int| 0 <= k < n ==> kind_schema_wf(#[trigger] slots@[k]),
                        built@.len() == i,
                        forall|k: int|
                            0 <= k < i ==> (#[trigger] built@[k]).wf() && built@[k].entry_id@
                                == entry_id@.push(k as i64),
                    decreases n - i,
                {
                    let child_id = entry_id.child(i as u64);
                    built.push(KindPanel::new(&slots[i], child_id));
                    i += 1;
                }
                NodePanel {
                    entry_id,
                    short_name: short_name.clone(),
                    long_name: long_name.clone(),
                    expanded: true,
                    summary: summary_node,
                    kinds: built,
                }
            },
            _ => {
                proof {
                    assert(false);
                }
                NodePanel {
                    entry_id,
                    short_name: String::new(),
                    long_name: String::new(),
                    expanded: true,
                    summary: None,
                    kinds: Vec::new(),
                }
            },
        }
    }
}

impl NodePanel {
    /// Whether the kind passes the kind filter: an empty filter shows
    /// everything.
    fn kind_visible(kind: &KindPanel, kind_filter: &Vec<String>) -> (r: bool)
        ensures
            r == (kind_filter.deep_view().len() == 0 || kind_filter.deep_view().contains(
                kind.short_name@,
            )),
    {
        if kind_filter.len() == 0 {
            return true;
        }
        crate::data::vec_contains_string(kind_filter, &kind.short_name)
    }

    /// Requests metadata for every visible kind of this node.
    pub fn inflate_meta_all<D: DeferredDataSource>(
        &mut self,
        config: &mut Config<D>,
        view_interval: Interval,
        kind_filter: &Vec<String>,
        force: bool,
    )
        requires
            old(self).wf(),
            old(config).wf(),
            view_interval.wf(),
        ensures
            final(self).wf(),
            final(self).entry_id == old(self).entry_id,
            node_meta_inflated(
                *old(self),
                *final(self),
                old(config).tile_set,
                view_interval,
                kind_filter.deep_view(),
                force,
                final(config).data_source.outstanding_requests < u64::MAX,
            ),
            old(config).data_source.outstanding_requests <= final(config).data_source.outstanding_requests,
            final(config).wf(),
            final(config).tile_set == old(config).tile_set,
            final(config).search_state == old(config).search_state,
    {
        if !self.expanded && !force {
            return ;
        }
        let n = self.kinds.len();
        let mut i: usize = 0;
        while i < n
            invariant
                n == self.kinds@.len() == old(self).kinds@.len(),
                0 <= i <= n,
                self.wf(),
                self.entry_id == old(self).entry_id,
                self.expanded == old(self).expanded,
                self.short_name == old(self).short_name,
                self.long_name == old(self).long_name,
                self.summary == old(self).summary,
                view_interval.wf(),
                forall|k: int|
                    0 <= k < i ==> (if force || kind_filter.deep_view().len() == 0
                        || kind_filter.deep_view().contains(
                        (#[trigger] old(self).kinds@[k]).short_name@,
                    ) {
                        kind_meta_inflated(
                            old(self).kinds@[k],
                            self.kinds@[k],
                            old(config).tile_set,
                            view_interval,
                            force,
                            config.data_source.outstanding_requests < u64::MAX,
                        )
                    } else {
                        self.kinds@[k] == old(self).kinds@[k]
                    }),
                forall|k: int| i <= k < n ==> #[trigger] self.kinds@[k] == old(self).kinds@[k],
                old(config).data_source.outstanding_requests <= config.data_source.outstanding_requests,
                config.wf(),
                config.tile_set == old(config).tile_set,
                config.search_state == old(config).search_state,
            decreases n - i,
        {
            let visible = Self::kind_visible(&self.kinds[i], kind_filter);
            let ghost c0 = config.data_source.outstanding_requests;
            if force || visible {
                let ghost kinds0 = self.kinds@;
                let kind = &mut self.kinds[i];
                kind.inflate_meta_all(config, view_interval, force);
                proof {
                    let k2 = *final(kind);
                    assert(self.kinds@ =~= kinds0.update(i as int, k2));
                    assert forall|k: int| 0 <= k < self.kinds@.len() implies (
                    #[trigger] self.kinds@[k]).wf() && self.kinds@[k].entry_id@
                        == self.entry_id@.push(k as i64) by {
                        if k != i {
                            assert(self.kinds@[k] == kinds0[k]);
                        }
                    }
                    assert forall|k: int| 0 <= k < i implies #[trigger] self.kinds@[k]
                        == kinds0[k] by {}
                    if !(config.data_source.outstanding_requests < u64::MAX) {
                        assert forall|k: int|
                            0 <= k < i && (force || kind_filter.deep_view().len() == 0
                                || kind_filter.deep_view().contains(
                                (#[trigger] old(self).kinds@[k]).short_name@,
                            )) implies kind_meta_inflated(
                            old(self).kinds@[k],
                            self.kinds@[k],
                            old(config).tile_set,
                            view_interval,
                            force,
                            false,
                        ) by {
                            lemma_kind_meta_inflated_relax(
                                old(self).kinds@[k],
                                self.kinds@[k],
                                old(config).tile_set,
                                view_interval,
                                force,
                                c0 < u64::MAX,
                            );
                        }
                    }
                }
            }
            i += 1;
        }
    }

    /// Runs the search over every visible kind of this node. The
    /// result set only grows, and unless the cap froze it, every
    /// fresh arrived tile in the searched scope ends up indexed.
    pub fn search_all(
        &self,
        search: &mut SearchState,
        kind_filter: &Vec<String>,
        force: bool,
    )
        requires
            self.wf(),
            old(search).wf(),
        ensures
            final(search).wf(),
            old(search).result_set_view().subset_of(final(search).result_set_view()),
            old(search).result_set_view().len() == MAX_SEARCH_RESULTS ==> final(search).result_set_view() == old(search).result_set_view(),
            final(search).tree_view() == old(search).tree_view(),
            final(search).title_field == old(search).title_field,
            final(search).query == old(search).query,
            final(search).last_query == old(search).last_query,
            final(search).search_field == old(search).search_field,
            final(search).last_search_field == old(search).last_search_field,
            final(search).include_collapsed_entries == old(search).include_collapsed_entries,
            final(search).last_include_collapsed_entries == old(search).last_include_collapsed_entries,
            final(search).last_view_interval == old(search).last_view_interval,
            forall|path: Seq<i64>, t: TileID|
                !(path.len() == 3 && path[0] == self.entry_id@[0]) ==> #[trigger] cache_has_tile(
                    final(search).cache_view(),
                    path,
                    t,
                ) == cache_has_tile(old(search).cache_view(), path, t),
            node_scope_indexed(
                *final(search),
                old(search).cache_view(),
                *self,
                kind_filter.deep_view(),
                force,
                old(search).search_field,
                old(search).title_field,
                old(search).query@,
            ),
            crate::search::records_preserved(
                old(search).cache_view(),
                final(search).cache_view(),
            ),
            forall|uid: u64|
                final(search).result_set_view().contains(uid) && !old(search).result_set_view().contains(uid) ==> node_new_result_recorded(
                    *final(search),
                    *self,
                    uid,
                    old(search).search_field,
                    old(search).title_field,
                    old(search).query@,
                ),
    {
        if !self.expanded && !force {
            return ;
        }
        let n = self.kinds.len();
        let mut i: usize = 0;
        while i < n
            invariant
                n == self.kinds@.len(),
                0 <= i <= n,
                self.wf(),
                search.wf(),
                old(search).result_set_view().subset_of(search.result_set_view()),
                old(search).result_set_view().len() == MAX_SEARCH_RESULTS
                    ==> search.result_set_view() == old(search).result_set_view(),
                search.tree_view() == old(search).tree_view(),
                search.title_field == old(search).title_field,
                search.query == old(search).query,
                search.last_query == old(search).last_query,
                search.search_field == old(search).search_field,
                search.last_search_field == old(search).last_search_field,
                search.include_collapsed_entries == old(search).include_collapsed_entries,
                search.last_include_collapsed_entries == old(search).last_include_collapsed_entries,
                search.last_view_interval == old(search).last_view_interval,
                forall|path: Seq<i64>, t: TileID|
                    !(path.len() == 3 && path[0] == self.entry_id@[0] && 0 <= path[1] < i)
                        ==> #[trigger] cache_has_tile(search.cache_view(), path, t)
                        == cache_has_tile(old(search).cache_view(), path, t),
                forall|j: int|
                    0 <= j < i && (force || kind_filter.deep_view().len() == 0
                        || kind_filter.deep_view().contains(
                        (#[trigger] self.kinds@[j]).short_name@,
                    )) ==> kind_scope_indexed(
                        *search,
                        old(search).cache_view(),
                        self.kinds@[j],
                        force,
                        old(search).search_field,
                        old(search).title_field,
                        old(search).query@,
                    ),
                crate::search::records_preserved(
                    old(search).cache_view(),
                    search.cache_view(),
                ),
                forall|uid: u64|
                    search.result_set_view().contains(uid) && !old(search).result_set_view().contains(uid) ==> node_new_result_recorded(
                        *search,
                        *self,
                        uid,
                        old(search).search_field,
                        old(search).title_field,
                        old(search).query@,
                    ),
            decreases n - i,
        {
            let ghost search_before = *search;
            let visible = Self::kind_visible(&self.kinds[i], kind_filter);
            if force || visible {
                let kind = &self.kinds[i];
                kind.search_all(search, force);
                proof {
                    // Slots of this kind carry its path, whose second
                    // element is `i`: their buckets were untouched so
                    // far, so the freshness base is unchanged.
                    assert(kind.entry_id@ == self.entry_id@.push(i as i64));
                    assert forall|sl: int, t: TileID|
                        0 <= sl < kind.slots@.len() implies #[trigger] cache_has_tile(
                        search_before.cache_view(),
                        kind.slots@[sl].entry_id@,
                        t,
                    ) == cache_has_tile(
                        old(search).cache_view(),
                        kind.slots@[sl].entry_id@,
                        t,
                    ) by {
                        assert(kind.slots@[sl].entry_id@ == kind.entry_id@.push(sl as i64));
                        assert(kind.slots@[sl].entry_id@[1] == i as i64);
                    }
                    if kind.expanded || force {
                        assert forall|sl: int| 0 <= sl < kind.slots@.len() implies slot_fresh_tiles_indexed(
                            *search,
                            old(search).cache_view(),
                            #[trigger] kind.slots@[sl],
                            old(search).search_field,
                            old(search).title_field,
                            old(search).query@,
                        ) by {
                            lemma_fresh_base_equiv(
                                *search,
                                search_before.cache_view(),
                                old(search).cache_view(),
                                kind.slots@[sl],
                                old(search).search_field,
                                old(search).title_field,
                                old(search).query@,
                            );
                        }
                    }
                }
            }
            proof {
                assert forall|j: int|
                    0 <= j < i + 1 && (force || kind_filter.deep_view().len() == 0
                        || kind_filter.deep_view().contains(
                        (#[trigger] self.kinds@[j]).short_name@,
                    )) implies kind_scope_indexed(
                    *search,
                    old(search).cache_view(),
                    self.kinds@[j],
                    force,
                    old(search).search_field,
                    old(search).title_field,
                    old(search).query@,
                ) by {
                    if j < i {
                        if self.kinds@[j].expanded || force {
                            assert forall|sl: int|
                                0 <= sl < self.kinds@[j].slots@.len() implies slot_fresh_tiles_indexed(
                                *search,
                                old(search).cache_view(),
                                #[trigger] self.kinds@[j].slots@[sl],
                                old(search).search_field,
                                old(search).title_field,
                                old(search).query@,
                            ) by {
                                lemma_slot_indexed_persists(
                                    search_before,
                                    *search,
                                    old(search).cache_view(),
                                    self.kinds@[j].slots@[sl],
                                    old(search).search_field,
                                    old(search).title_field,
                                    old(search).query@,
                                );
                            }
                        }
                    }
                }
                assert forall|path: Seq<i64>, t: TileID|
                    !(path.len() == 3 && path[0] == self.entry_id@[0] && 0 <= path[1] < i
                        + 1) implies #[trigger] cache_has_tile(search.cache_view(), path, t)
                    == cache_has_tile(old(search).cache_view(), path, t) by {
                    assert(self.kinds@[i as int].entry_id@ == self.entry_id@.push(i as i64));
                }
                // New identifiers trace to a recorded match in one of
                // this node's kinds.
                assert forall|uid: u64|
                    search.result_set_view().contains(uid) && !old(search).result_set_view().contains(uid) implies node_new_result_recorded(
                    *search,
                    *self,
                    uid,
                    old(search).search_field,
                    old(search).title_field,
                    old(search).query@,
                ) by {
                    if search_before.result_set_view().contains(uid) {
                        let j2 = choose|j2: int|
                            0 <= j2 < self.kinds@.len() && kind_new_result_recorded(
                                search_before,
                                #[trigger] self.kinds@[j2],
                                uid,
                                old(search).search_field,
                                old(search).title_field,
                                old(search).query@,
                            );
                        let i2 = choose|i2: int|
                            0 <= i2 < self.kinds@[j2].slots@.len() && slot_new_result_recorded(
                                search_before,
                                #[trigger] self.kinds@[j2].slots@[i2],
                                uid,
                                old(search).search_field,
                                old(search).title_field,
                                old(search).query@,
                            );
                        lemma_slot_recorded_persists(
                            search_before,
                            *search,
                            self.kinds@[j2].slots@[i2],
                            uid,
                            old(search).search_field,
                            old(search).title_field,
                            old(search).query@,
                        );
                        assert(kind_new_result_recorded(
                            *search,
                            self.kinds@[j2],
                            uid,
                            old(search).search_field,
                            old(search).title_field,
                            old(search).query@,
                        ));
                    } else {
                        assert(kind_new_result_recorded(
                            *search,
                            self.kinds@[i as int],
                            uid,
                            old(search).search_field,
                            old(search).title_field,
                            old(search).query@,
                        ));
                    }
                }
            }
            i += 1;
        }
        proof {
            assert forall|path: Seq<i64>, t: TileID|
                !(path.len() == 3 && path[0] == self.entry_id@[0]) implies #[trigger] cache_has_tile(
                search.cache_view(),
                path,
                t,
            ) == cache_has_tile(old(search).cache_view(), path, t) by {}
        }
    }

    /// Clears and refills the tile caches under this node for the
    /// given view.
    pub fn prepare_all<D: DeferredDataSource>(
        &mut self,
        config: &mut Config<D>,
        view_interval: Interval,
        kind_filter: &Vec<String>,
    )
        requires
            old(self).wf(),
            old(config).wf(),
            view_interval.wf(),
        ensures
            final(self).wf(),
            final(self).entry_id == old(self).entry_id,
            node_prepared(
                *old(self),
                *final(self),
                old(config).tile_set,
                view_interval,
                kind_filter.deep_view(),
                final(config).data_source.outstanding_requests < u64::MAX,
            ),
            old(config).data_source.outstanding_requests <= final(config).data_source.outstanding_requests,
            final(config).wf(),
            final(config).tile_set == old(config).tile_set,
            final(config).search_state == old(config).search_state,
    {
        match &mut self.summary {
            Some(summary) => {
                summary.prepare(config, view_interval);
                proof {
                    assert(final(summary).entry_id@ == self.entry_id@.push(-1i64));
                    assert(self.summary == Some(*final(summary)));
                }
            },
            None => {},
        }
        if !self.expanded {
            return ;
        }
        let n = self.kinds.len();
        let mut i: usize = 0;
        while i < n
            invariant
                n == self.kinds@.len() == old(self).kinds@.len(),
                0 <= i <= n,
                self.wf(),
                self.entry_id == old(self).entry_id,
                self.expanded == old(self).expanded,
                self.short_name == old(self).short_name,
                self.long_name == old(self).long_name,
                option_summary_prepared(
                    old(self).summary,
                    self.summary,
                    old(config).tile_set,
                    view_interval,
                    config.data_source.outstanding_requests < u64::MAX,
                ),
                view_interval.wf(),
                forall|k: int|
                    0 <= k < i ==> (if kind_filter.deep_view().len() == 0
                        || kind_filter.deep_view().contains(
                        (#[trigger] old(self).kinds@[k]).short_name@,
                    ) {
                        kind_prepared(
                            old(self).kinds@[k],
                            self.kinds@[k],
                            old(config).tile_set,
                            view_interval,
                            config.data_source.outstanding_requests < u64::MAX,
                        )
                    } else {
                        self.kinds@[k] == old(self).kinds@[k]
                    }),
                forall|k: int| i <= k < n ==> #[trigger] self.kinds@[k] == old(self).kinds@[k],
                old(config).data_source.outstanding_requests <= config.data_source.outstanding_requests,
                config.wf(),
                config.tile_set == old(config).tile_set,
                config.search_state == old(config).search_state,
            decreases n - i,
        {
            let visible = Self::kind_visible(&self.kinds[i], kind_filter);
            let ghost c0 = config.data_source.outstanding_requests;
            if visible {
                let ghost kinds0 = self.kinds@;
                let kind = &mut self.kinds[i];
                kind.prepare_all(config, view_interval);
                proof {
                    let k2 = *final(kind);
                    assert(self.kinds@ =~= kinds0.update(i as int, k2));
                    assert forall|k: int| 0 <= k < self.kinds@.len() implies (
                    #[trigger] self.kinds@[k]).wf() && self.kinds@[k].entry_id@
                        == self.entry_id@.push(k as i64) by {
                        if k != i {
                            assert(self.kinds@[k] == kinds0[k]);
                        }
                    }
                    assert forall|k: int| 0 <= k < i implies #[trigger] self.kinds@[k]
                        == kinds0[k] by {}
                    if !(config.data_source.outstanding_requests < u64::MAX) {
                        lemma_option_summary_prepared_relax(
                            old(self).summary,
                            self.summary,
                            old(config).tile_set,
                            view_interval,
                            c0 < u64::MAX,
                        );
                        assert forall|k: int|
                            0 <= k < i && (kind_filter.deep_view().len() == 0
                                || kind_filter.deep_view().contains(
                                (#[trigger] old(self).kinds@[k]).short_name@,
                            )) implies kind_prepared(
                            old(self).kinds@[k],
                            self.kinds@[k],
                            old(config).tile_set,
                            view_interval,
                            false,
                        ) by {
                            lemma_kind_prepared_relax(
                                old(self).kinds@[k],
                                self.kinds@[k],
                                old(config).tile_set,
                                view_interval,
                                c0 < u64::MAX,
                            );
                        }
                    }
                }
            }
            i += 1;
        }
    }
}

/// Whether a summary path addresses an existing summary plot: slot
/// indexes ending in the sentinel, at the root, at a node, or at a
/// kind that has a summary child.
pub open spec fn summary_path_valid(root: RootPanel, path: Seq<i64>) -> bool {
    if path.len() == 1 {
        path[0] < 0 && root.summary is Some
    } else if path.len() == 2 {
        &&& 0 <= path[0] < root.nodes@.len()
        &&& path[1] < 0
        &&& root.nodes@[path[0] as int].summary is Some
    } else if path.len() == 3 {
        &&& 0 <= path[0] < root.nodes@.len()
        &&& 0 <= path[1] < root.nodes@[path[0] as int].kinds@.len()
        &&& path[2] < 0
        &&& root.nodes@[path[0] as int].kinds@[path[1] as int].summary is Some
    } else {
        false
    }
}

/// The summary plot an existing summary path addresses.
pub open spec fn summary_at(root: RootPanel, path: Seq<i64>) -> Summary {
    if path.len() == 1 {
        root.summary->Some_0
    } else if path.len() == 2 {
        root.nodes@[path[0] as int].summary->Some_0
    } else {
        root.nodes@[path[0] as int].kinds@[path[1] as int].summary->Some_0
    }
}

/// What storing an arrived payload does to a summary: the echoed
/// tile's bucket takes the payload, and nothing else moves.
pub open spec fn summary_stored(s0: Summary, s1: Summary, tile_id: TileID, data: SummaryTileData) -> bool {
    &&& s1.entry_id == s0.entry_id
    &&& s1.color == s0.color
    &&& s1.last_view_interval == s0.last_view_interval
    &&& s1.tiles@.len() == s0.tiles@.len()
    &&& forall|k: int|
        0 <= k < s0.tiles@.len() ==> (#[trigger] s1.tiles@[k]) == (if s0.tiles@[k].0 == tile_id {
            (tile_id, Some(data))
        } else {
            s0.tiles@[k]
        })
}

/// Whether two summary paths address the same summary plot: equal
/// length and equal panel coordinates, whatever their trailing
/// summary markers.
pub open spec fn summary_paths_alias(p1: Seq<i64>, p2: Seq<i64>) -> bool {
    &&& p1.len() == p2.len()
    &&& forall|i: int| 0 <= i < p1.len() - 1 ==> p1[i] == p2[i]
}

/// Whether a slot path addresses an existing slot of the tree.
pub open spec fn slot_path_valid(root: RootPanel, path: Seq<i64>) -> bool {
    &&& path.len() == 3
    &&& 0 <= path[0] < root.nodes@.len()
    &&& 0 <= path[1] < root.nodes@[path[0] as int].kinds@.len()
    &&& 0 <= path[2] < root.nodes@[path[0] as int].kinds@[path[1] as int].slots@.len()
}

/// The slot an existing slot path addresses.
pub open spec fn slot_at(root: RootPanel, path: Seq<i64>) -> Slot {
    root.nodes@[path[0] as int].kinds@[path[1] as int].slots@[path[2] as int]
}

impl RootPanel {
    /// The root panel has the empty path; its nodes carry their index
    /// as a one-element path.
    pub open spec fn wf(&self) -> bool {
        &&& self.entry_id@.len() == 0
        &&& self.nodes@.len() <= i64::MAX
        &&& forall|i: int|
            0 <= i < self.nodes@.len() ==> (#[trigger] self.nodes@[i]).wf()
                && self.nodes@[i].entry_id@ == self.entry_id@.push(i as i64)
        &&& summary_child_ok(self.summary, self.entry_id@)
    }

    pub fn new(info: &EntryInfo, entry_id: EntryID) -> (r: Self)
        requires
            root_schema_wf(*info),
            entry_id@.len() == 0,
        ensures
            r.wf(),
            r.nodes@.len() == info.panel_slots().len(),
    {
        proof {
            assert(entry_id.is_slot_path());
        }
        match info {
            EntryInfo::Panel { short_name, long_name, summary, slots } => {
                assert(info.panel_slots() == slots@);
                let summary_node = match summary {
                    Some(boxed) => match &**boxed {
                        EntryInfo::Summary { color } => Some(
                            Summary::new(*color, entry_id.summary()),
                        ),
                        _ => None,
                    },
                    None => None,
                };
                let n = slots.len();
                let mut built: Vec<NodePanel> = Vec::new();
                let mut i: usize = 0;
                while i < n
                    invariant
                        n == slots@.len() <= i64::MAX,
                        0 <= i <= n,
                        entry_id@.len() == 0,
                        entry_id.is_slot_path(),
                        forall|k: int| 0 <= k < n ==> node_schema_wf(#[trigger] slots@[k]),
                        built@.len() == i,
                        forall|k: int|
                            0 <= k < i ==> (#[trigger] built@[k]).wf() && built@[k].entry_id@
                                == entry_id@.push(k as i64),
                    decreases n - i,
                {
                    let child_id = entry_id.child(i as u64);
                    built.push(NodePanel::new(&slots[i], child_id));
                    i += 1;
                }
                RootPanel {
                    entry_id,
                    short_name: short_name.clone(),
                    long_name: long_name.clone(),
                    expanded: true,
                    summary: summary_node,
                    nodes: built,
                }
            },
            _ => {
                proof {
                    assert(false);
                }
                RootPanel {
                    entry_id,
                    short_name: String::new(),
                    long_name: String::new(),
                    expanded: true,
                    summary: None,
                    nodes: Vec::new(),
                }
            },
        }
    }

    /// The indexes a slot path resolves to in this tree, if the slot
    /// exists.
    fn slot_pos(&self, entry_id: &EntryID) -> (r: Option<(usize, usize, usize)>)
        requires
            self.wf(),
        ensures
            match r {
                Some(pos) => slot_path_valid(*self, entry_id@) && pos.0 == entry_id@[0] && pos.1
                    == entry_id@[1] && pos.2 == entry_id@[2],
                None => !slot_path_valid(*self, entry_id@),
            },
    {
        if entry_id.level() != 3 {
            return None;
        }
        let a = match entry_id.slot_index(0) {
            Some(v) => v,
            None => {
                return None;
            },
        };
        let b = match entry_id.slot_index(1) {
            Some(v) => v,
            None => {
                return None;
            },
        };
        let c = match entry_id.slot_index(2) {
            Some(v) => v,
            None => {
                return None;
            },
        };
        if a >= self.nodes.len() as u64 {
            return None;
        }
        let node = &self.nodes[a as usize];
        if b >= node.kinds.len() as u64 {
            return None;
        }
        let kind = &node.kinds[b as usize];
        if c >= kind.slots.len() as u64 {
            return None;
        }
        Some((a as usize, b as usize, c as usize))
    }

    /// Requests metadata for every slot the search will visit: the
    /// expanded, filter-passing part of the tree, or everything when
    /// the search includes collapsed entries.
    pub fn inflate_meta_all<D: DeferredDataSource>(
        &mut self,
        config: &mut Config<D>,
        view_interval: Interval,
        min_node: u64,
        max_node: u64,
        kind_filter: &Vec<String>,
        force: bool,
    )
        requires
            old(self).wf(),
            old(config).wf(),
            view_interval.wf(),
        ensures
            final(self).wf(),
            root_meta_inflated(
                *old(self),
                *final(self),
                old(config).tile_set,
                view_interval,
                min_node,
                max_node,
                kind_filter.deep_view(),
                force,
                final(config).data_source.outstanding_requests < u64::MAX,
            ),
            old(config).data_source.outstanding_requests <= final(config).data_source.outstanding_requests,
            final(config).wf(),
            final(config).tile_set == old(config).tile_set,
            final(config).search_state == old(config).search_state,
    {
        if !self.expanded && !force {
            return ;
        }
        let n = self.nodes.len();
        let mut i: usize = 0;
        while i < n
            invariant
                n == self.nodes@.len() == old(self).nodes@.len(),
                0 <= i <= n,
                self.wf(),
                self.entry_id == old(self).entry_id,
                self.expanded == old(self).expanded,
                self.short_name == old(self).short_name,
                self.long_name == old(self).long_name,
                self.summary == old(self).summary,
                view_interval.wf(),
                forall|k: int|
                    0 <= k < i ==> (if force || (min_node <= k && k <= max_node) {
                        node_meta_inflated(
                            #[trigger] old(self).nodes@[k],
                            self.nodes@[k],
                            old(config).tile_set,
                            view_interval,
                            kind_filter.deep_view(),
                            force,
                            config.data_source.outstanding_requests < u64::MAX,
                        )
                    } else {
                        self.nodes@[k] == old(self).nodes@[k]
                    }),
                forall|k: int| i <= k < n ==> #[trigger] self.nodes@[k] == old(self).nodes@[k],
                old(config).data_source.outstanding_requests <= config.data_source.outstanding_requests,
                config.wf(),
                config.tile_set == old(config).tile_set,
                config.search_state == old(config).search_state,
            decreases n - i,
        {
            let visible = min_node <= i as u64 && i as u64 <= max_node;
            let ghost c0 = config.data_source.outstanding_requests;
            if force || visible {
                let ghost nodes0 = self.nodes@;
                let node = &mut self.nodes[i];
                node.inflate_meta_all(config, view_interval, kind_filter, force);
                proof {
                    let n2 = *final(node);
                    assert(self.nodes@ =~= nodes0.update(i as int, n2));
                    assert forall|k: int| 0 <= k < self.nodes@.len() implies (
                    #[trigger] self.nodes@[k]).wf() && self.nodes@[k].entry_id@
                        == self.entry_id@.push(k as i64) by {
                        if k != i {
                            assert(self.nodes@[k] == nodes0[k]);
                        }
                    }
                    assert forall|k: int| 0 <= k < i implies #[trigger] self.nodes@[k]
                        == nodes0[k] by {}
                    if !(config.data_source.outstanding_requests < u64::MAX) {
                        assert forall|k: int|
                            0 <= k < i && (force || (min_node <= k && k
                                <= max_node)) implies node_meta_inflated(
                            #[trigger] old(self).nodes@[k],
                            self.nodes@[k],
                            old(config).tile_set,
                            view_interval,
                            kind_filter.deep_view(),
                            force,
                            false,
                        ) by {
                            lemma_node_meta_inflated_relax(
                                old(self).nodes@[k],
                                self.nodes@[k],
                                old(config).tile_set,
                                view_interval,
                                kind_filter.deep_view(),
                                force,
                                c0 < u64::MAX,
                            );
                        }
                    }
                }
            }
            i += 1;
        }
    }

    /// Runs the search over every slot it should reach. The result set
    /// only grows, and unless the cap froze it, every fresh arrived
    /// tile in the searched scope ends up indexed.
    pub fn search_all(
        &self,
        search: &mut SearchState,
        min_node: u64,
        max_node: u64,
        kind_filter: &Vec<String>,
        force: bool,
    )
        requires
            self.wf(),
            old(search).wf(),
        ensures
            final(search).wf(),
            old(search).result_set_view().subset_of(final(search).result_set_view()),
            old(search).result_set_view().len() == MAX_SEARCH_RESULTS ==> final(search).result_set_view() == old(search).result_set_view(),
            final(search).tree_view() == old(search).tree_view(),
            final(search).title_field == old(search).title_field,
            final(search).query == old(search).query,
            final(search).last_query == old(search).last_query,
            final(search).search_field == old(search).search_field,
            final(search).last_search_field == old(search).last_search_field,
            final(search).include_collapsed_entries == old(search).include_collapsed_entries,
            final(search).last_include_collapsed_entries == old(search).last_include_collapsed_entries,
            final(search).last_view_interval == old(search).last_view_interval,
            root_scope_indexed(
                *final(search),
                old(search).cache_view(),
                *self,
                min_node,
                max_node,
                kind_filter.deep_view(),
                force,
                old(search).search_field,
                old(search).title_field,
                old(search).query@,
            ),
            crate::search::records_preserved(
                old(search).cache_view(),
                final(search).cache_view(),
            ),
            forall|uid: u64|
                final(search).result_set_view().contains(uid) && !old(search).result_set_view().contains(uid) ==> root_new_result_recorded(
                    *final(search),
                    *self,
                    uid,
                    old(search).search_field,
                    old(search).title_field,
                    old(search).query@,
                ),
    {
        if !self.expanded && !force {
            return ;
        }
        let n = self.nodes.len();
        let mut i: usize = 0;
        while i < n
            invariant
                n == self.nodes@.len(),
                0 <= i <= n,
                self.wf(),
                search.wf(),
                old(search).result_set_view().subset_of(search.result_set_view()),
                old(search).result_set_view().len() == MAX_SEARCH_RESULTS
                    ==> search.result_set_view() == old(search).result_set_view(),
                search.tree_view() == old(search).tree_view(),
                search.title_field == old(search).title_field,
                search.query == old(search).query,
                search.last_query == old(search).last_query,
                search.search_field == old(search).search_field,
                search.last_search_field == old(search).last_search_field,
                search.include_collapsed_entries == old(search).include_collapsed_entries,
                search.last_include_collapsed_entries == old(search).last_include_collapsed_entries,
                search.last_view_interval == old(search).last_view_interval,
                forall|path: Seq<i64>, t: TileID|
                    !(path.len() == 3 && 0 <= path[0] < i) ==> #[trigger] cache_has_tile(
                        search.cache_view(),
                        path,
                        t,
                    ) == cache_has_tile(old(search).cache_view(), path, t),
                forall|a: int|
                    0 <= a < i && (force || (min_node <= a && a <= max_node))
                        ==> node_scope_indexed(
                        *search,
                        old(search).cache_view(),
                        #[trigger] self.nodes@[a],
                        kind_filter.deep_view(),
                        force,
                        old(search).search_field,
                        old(search).title_field,
                        old(search).query@,
                    ),
                crate::search::records_preserved(
                    old(search).cache_view(),
                    search.cache_view(),
                ),
                forall|uid: u64|
                    search.result_set_view().contains(uid) && !old(search).result_set_view().contains(uid) ==> root_new_result_recorded(
                        *search,
                        *self,
                        uid,
                        old(search).search_field,
                        old(search).title_field,
                        old(search).query@,
                    ),
            decreases n - i,
        {
            let ghost search_before = *search;
            let visible = min_node <= i as u64 && i as u64 <= max_node;
            if force || visible {
                let node = &self.nodes[i];
                node.search_all(search, kind_filter, force);
                proof {
                    assert(node.entry_id@ == self.entry_id@.push(i as i64));
                    // Freshness base for this node's slots is
                    // unchanged: their paths start with `i`.
                    if node.expanded || force {
                        assert forall|j: int|
                            0 <= j < node.kinds@.len() && (force || kind_filter.deep_view().len()
                                == 0 || kind_filter.deep_view().contains(
                                (#[trigger] node.kinds@[j]).short_name@,
                            )) implies kind_scope_indexed(
                            *search,
                            old(search).cache_view(),
                            node.kinds@[j],
                            force,
                            old(search).search_field,
                            old(search).title_field,
                            old(search).query@,
                        ) by {
                            if node.kinds@[j].expanded || force {
                                assert forall|sl: int|
                                    0 <= sl < node.kinds@[j].slots@.len() implies slot_fresh_tiles_indexed(
                                    *search,
                                    old(search).cache_view(),
                                    #[trigger] node.kinds@[j].slots@[sl],
                                    old(search).search_field,
                                    old(search).title_field,
                                    old(search).query@,
                                ) by {
                                    let slot = node.kinds@[j].slots@[sl];
                                    assert(node.kinds@[j].entry_id@ == node.entry_id@.push(
                                        j as i64,
                                    ));
                                    assert(slot.entry_id@ == node.kinds@[j].entry_id@.push(
                                        sl as i64,
                                    ));
                                    assert(slot.entry_id@[0] == i as i64);
                                    assert forall|t: TileID| #[trigger]
                                        cache_has_tile(
                                            search_before.cache_view(),
                                            slot.entry_id@,
                                            t,
                                        ) == cache_has_tile(
                                        old(search).cache_view(),
                                        slot.entry_id@,
                                        t,
                                    ) by {}
                                    lemma_fresh_base_equiv(
                                        *search,
                                        search_before.cache_view(),
                                        old(search).cache_view(),
                                        slot,
                                        old(search).search_field,
                                        old(search).title_field,
                                        old(search).query@,
                                    );
                                }
                            }
                        }
                    }
                }
            }
            proof {
                assert forall|a: int|
                    0 <= a < i + 1 && (force || (min_node <= a && a <= max_node)) implies node_scope_indexed(
                    *search,
                    old(search).cache_view(),
                    #[trigger] self.nodes@[a],
                    kind_filter.deep_view(),
                    force,
                    old(search).search_field,
                    old(search).title_field,
                    old(search).query@,
                ) by {
                    if a < i {
                        if self.nodes@[a].expanded || force {
                            assert forall|j: int|
                                0 <= j < self.nodes@[a].kinds@.len() && (force
                                    || kind_filter.deep_view().len() == 0
                                    || kind_filter.deep_view().contains(
                                    (#[trigger] self.nodes@[a].kinds@[j]).short_name@,
                                )) implies kind_scope_indexed(
                                *search,
                                old(search).cache_view(),
                                self.nodes@[a].kinds@[j],
                                force,
                                old(search).search_field,
                                old(search).title_field,
                                old(search).query@,
                            ) by {
                                if self.nodes@[a].kinds@[j].expanded || force {
                                    assert forall|sl: int|
                                        0 <= sl
                                            < self.nodes@[a].kinds@[j].slots@.len() implies slot_fresh_tiles_indexed(
                                        *search,
                                        old(search).cache_view(),
                                        #[trigger] self.nodes@[a].kinds@[j].slots@[sl],
                                        old(search).search_field,
                                        old(search).title_field,
                                        old(search).query@,
                                    ) by {
                                        lemma_slot_indexed_persists(
                                            search_before,
                                            *search,
                                            old(search).cache_view(),
                                            self.nodes@[a].kinds@[j].slots@[sl],
                                            old(search).search_field,
                                            old(search).title_field,
                                            old(search).query@,
                                        );
                                    }
                                }
                            }
                        }
                    }
                }
                assert forall|path: Seq<i64>, t: TileID|
                    !(path.len() == 3 && 0 <= path[0] < i + 1) implies #[trigger] cache_has_tile(
                    search.cache_view(),
                    path,
                    t,
                ) == cache_has_tile(old(search).cache_view(), path, t) by {
                    assert(self.nodes@[i as int].entry_id@ == self.entry_id@.push(i as i64));
                }
                // New identifiers trace to a recorded match somewhere
                // in the tree.
                assert forall|uid: u64|
                    search.result_set_view().contains(uid) && !old(search).result_set_view().contains(uid) implies root_new_result_recorded(
                    *search,
                    *self,
                    uid,
                    old(search).search_field,
                    old(search).title_field,
                    old(search).query@,
                ) by {
                    if search_before.result_set_view().contains(uid) {
                        let a2 = choose|a2: int|
                            0 <= a2 < self.nodes@.len() && node_new_result_recorded(
                                search_before,
                                #[trigger] self.nodes@[a2],
                                uid,
                                old(search).search_field,
                                old(search).title_field,
                                old(search).query@,
                            );
                        let j2 = choose|j2: int|
                            0 <= j2 < self.nodes@[a2].kinds@.len() && kind_new_result_recorded(
                                search_before,
                                #[trigger] self.nodes@[a2].kinds@[j2],
                                uid,
                                old(search).search_field,
                                old(search).title_field,
                                old(search).query@,
                            );
                        let i2 = choose|i2: int|
                            0 <= i2 < self.nodes@[a2].kinds@[j2].slots@.len()
                                && slot_new_result_recorded(
                                search_before,
                                #[trigger] self.nodes@[a2].kinds@[j2].slots@[i2],
                                uid,
                                old(search).search_field,
                                old(search).title_field,
                                old(search).query@,
                            );
                        lemma_slot_recorded_persists(
                            search_before,
                            *search,
                            self.nodes@[a2].kinds@[j2].slots@[i2],
                            uid,
                            old(search).search_field,
                            old(search).title_field,
                            old(search).query@,
                        );
                        assert(kind_new_result_recorded(
                            *search,
                            self.nodes@[a2].kinds@[j2],
                            uid,
                            old(search).search_field,
                            old(search).title_field,
                            old(search).query@,
                        ));
                        assert(node_new_result_recorded(
                            *search,
                            self.nodes@[a2],
                            uid,
                            old(search).search_field,
                            old(search).title_field,
                            old(search).query@,
                        ));
                    } else {
                        assert(node_new_result_recorded(
                            *search,
                            self.nodes@[i as int],
                            uid,
                            old(search).search_field,
                            old(search).title_field,
                            old(search).query@,
                        ));
                    }
                }
            }
            i += 1;
        }
    }

    /// Clears and refills the visible tile caches of the whole tree
    /// for the given view; runs once per frame before drawing.
    pub fn prepare_all<D: DeferredDataSource>(
        &mut self,
        config: &mut Config<D>,
        view_interval: Interval,
        min_node: u64,
        max_node: u64,
        kind_filter: &Vec<String>,
    )
        requires
            old(self).wf(),
            old(config).wf(),
            view_interval.wf(),
        ensures
            final(self).wf(),
            root_prepared(
                *old(self),
                *final(self),
                old(config).tile_set,
                view_interval,
                min_node,
                max_node,
                kind_filter.deep_view(),
                final(config).data_source.outstanding_requests < u64::MAX,
            ),
            old(config).data_source.outstanding_requests <= final(config).data_source.outstanding_requests,
            final(config).wf(),
            final(config).tile_set == old(config).tile_set,
            final(config).search_state == old(config).search_state,
    {
        match &mut self.summary {
            Some(summary) => {
                summary.prepare(config, view_interval);
                proof {
                    assert(final(summary).entry_id@ == self.entry_id@.push(-1i64));
                    assert(self.summary == Some(*final(summary)));
                }
            },
            None => {},
        }
        if !self.expanded {
            return ;
        }
        let n = self.nodes.len();
        let mut i: usize = 0;
        while i < n
            invariant
                n == self.nodes@.len() == old(self).nodes@.len(),
                0 <= i <= n,
                self.wf(),
                self.entry_id == old(self).entry_id,
                self.expanded == old(self).expanded,
                self.short_name == old(self).short_name,
                self.long_name == old(self).long_name,
                option_summary_prepared(
                    old(self).summary,
                    self.summary,
                    old(config).tile_set,
                    view_interval,
                    config.data_source.outstanding_requests < u64::MAX,
                ),
                view_interval.wf(),
                forall|k: int|
                    0 <= k < i ==> (if min_node <= k && k <= max_node {
                        node_prepared(
                            #[trigger] old(self).nodes@[k],
                            self.nodes@[k],
                            old(config).tile_set,
                            view_interval,
                            kind_filter.deep_view(),
                            config.data_source.outstanding_requests < u64::MAX,
                        )
                    } else {
                        self.nodes@[k] == old(self).nodes@[k]
                    }),
                forall|k: int| i <= k < n ==> #[trigger] self.nodes@[k] == old(self).nodes@[k],
                old(config).data_source.outstanding_requests <= config.data_source.outstanding_requests,
                config.wf(),
                config.tile_set == old(config).tile_set,
                config.search_state == old(config).search_state,
            decreases n - i,
        {
            let visible = min_node <= i as u64 && i as u64 <= max_node;
            let ghost c0 = config.data_source.outstanding_requests;
            if visible {
                let ghost nodes0 = self.nodes@;
                let node = &mut self.nodes[i];
                node.prepare_all(config, view_interval, kind_filter);
                proof {
                    let n2 = *final(node);
                    assert(self.nodes@ =~= nodes0.update(i as int, n2));
                    assert forall|k: int| 0 <= k < self.nodes@.len() implies (
                    #[trigger] self.nodes@[k]).wf() && self.nodes@[k].entry_id@
                        == self.entry_id@.push(k as i64) by {
                        if k != i {
                            assert(self.nodes@[k] == nodes0[k]);
                        }
                    }
                    assert forall|k: int| 0 <= k < i implies #[trigger] self.nodes@[k]
                        == nodes0[k] by {}
                    if !(config.data_source.outstanding_requests < u64::MAX) {
                        lemma_option_summary_prepared_relax(
                            old(self).summary,
                            self.summary,
                            old(config).tile_set,
                            view_interval,
                            c0 < u64::MAX,
                        );
                        assert forall|k: int|
                            0 <= k < i && min_node <= k && k <= max_node implies node_prepared(
                            #[trigger] old(self).nodes@[k],
                            self.nodes@[k],
                            old(config).tile_set,
                            view_interval,
                            kind_filter.deep_view(),
                            false,
                        ) by {
                            lemma_node_prepared_relax(
                                old(self).nodes@[k],
                                self.nodes@[k],
                                old(config).tile_set,
                                view_interval,
                                kind_filter.deep_view(),
                                c0 < u64::MAX,
                            );
                        }
                    }
                }
            }
            i += 1;
        }
    }

    /// Expands or collapses every kind panel carrying the given label,
    /// across all nodes: the expand-by-kind and collapse-by-kind
    /// controls.
    pub fn set_kinds_expanded(&mut self, label: &String, expanded: bool)
        requires
            old(self).wf(),
        ensures
            final(self).wf(),
            final(self).nodes@.len() == old(self).nodes@.len(),
            forall|a: int, b: int|
                0 <= a < old(self).nodes@.len() && 0 <= b < old(self).nodes@[a].kinds@.len()
                    ==> (#[trigger] final(self).nodes@[a].kinds@[b]) == (KindPanel {
                    expanded: if old(self).nodes@[a].kinds@[b].short_name@ == label@ {
                        expanded
                    } else {
                        old(self).nodes@[a].kinds@[b].expanded
                    },
                    ..old(self).nodes@[a].kinds@[b]
                }),
    {
        let n = self.nodes.len();
        let mut a: usize = 0;
        while a < n
            invariant
                n == self.nodes@.len() == old(self).nodes@.len(),
                0 <= a <= n,
                self.wf(),
                forall|p: int|
                    0 <= p < n ==> (#[trigger] self.nodes@[p]).kinds@.len() == old(self).nodes@[p].kinds@.len(),
                forall|p: int, b: int|
                    0 <= p < n && 0 <= b < old(self).nodes@[p].kinds@.len() ==> (
                    #[trigger] self.nodes@[p].kinds@[b]) == (KindPanel {
                        expanded: if p < a && old(self).nodes@[p].kinds@[b].short_name@
                            == label@ {
                            expanded
                        } else {
                            old(self).nodes@[p].kinds@[b].expanded
                        },
                        ..old(self).nodes@[p].kinds@[b]
                    }),
            decreases n - a,
        {
            let ghost nodes0 = self.nodes@;
            let node = &mut self.nodes[a];
            let m = node.kinds.len();
            let mut b: usize = 0;
            proof {
                assert forall|q: int| 0 <= q < m implies (#[trigger] node.kinds@[q]) == old(self).nodes@[a as int].kinds@[q] by {
                    assert(node.kinds@[q] == (KindPanel {
                        expanded: old(self).nodes@[a as int].kinds@[q].expanded,
                        ..old(self).nodes@[a as int].kinds@[q]
                    }));
                }
            }
            while b < m
                invariant
                    m == node.kinds@.len() == old(self).nodes@[a as int].kinds@.len(),
                    0 <= b <= m,
                    0 <= a < n == old(self).nodes@.len(),
                    node.wf(),
                    node.entry_id == nodes0[a as int].entry_id,
                    forall|q: int|
                        0 <= q < m ==> (#[trigger] node.kinds@[q]) == (KindPanel {
                            expanded: if q < b && old(self).nodes@[a as int].kinds@[q].short_name@
                                == label@ {
                                expanded
                            } else {
                                old(self).nodes@[a as int].kinds@[q].expanded
                            },
                            ..old(self).nodes@[a as int].kinds@[q]
                        }),
                decreases m - b,
            {
                let matches_label = node.kinds[b].short_name == *label;
                if matches_label {
                    let ghost kinds0 = node.kinds@;
                    node.kinds[b].expanded = expanded;
                    proof {
                        assert(node.kinds@ =~= kinds0.update(
                            b as int,
                            (KindPanel { expanded, ..kinds0[b as int] }),
                        ));
                        assert forall|q: int| 0 <= q < m implies (#[trigger] node.kinds@[q]).wf()
                            && node.kinds@[q].entry_id@ == node.entry_id@.push(q as i64) by {
                            if q != b {
                                assert(node.kinds@[q] == kinds0[q]);
                            }
                        }
                    }
                }
                b += 1;
            }
            proof {
                let n2 = *final(node);
                assert(self.nodes@ =~= nodes0.update(a as int, n2));
                assert(n2.entry_id == nodes0[a as int].entry_id);
                assert(nodes0[a as int].entry_id@ == self.entry_id@.push(a as i64));
                assert forall|p: int| 0 <= p < self.nodes@.len() implies (
                #[trigger] self.nodes@[p]).wf() && self.nodes@[p].entry_id@
                    == self.entry_id@.push(p as i64) by {
                    if p != a {
                        assert(self.nodes@[p] == nodes0[p]);
                    }
                }
                assert forall|p: int, q: int|
                    0 <= p < n && 0 <= q < old(self).nodes@[p].kinds@.len() implies (
                #[trigger] self.nodes@[p].kinds@[q]) == (KindPanel {
                    expanded: if p < a + 1 && old(self).nodes@[p].kinds@[q].short_name@
                        == label@ {
                        expanded
                    } else {
                        old(self).nodes@[p].kinds@[q].expanded
                    },
                    ..old(self).nodes@[p].kinds@[q]
                }) by {
                    if p != a {
                        assert(self.nodes@[p] == nodes0[p]);
                        assert(nodes0[p].kinds@[q] == (KindPanel {
                            expanded: if p < a && old(self).nodes@[p].kinds@[q].short_name@
                                == label@ {
                                expanded
                            } else {
                                old(self).nodes@[p].kinds@[q].expanded
                            },
                            ..old(self).nodes@[p].kinds@[q]
                        }));
                    }
                }
            }
            a += 1;
        }
    }

    /// Writes an arrived slot tile payload into the slot it echoes.
    /// A result for an entry that no longer exists is silently
    /// discarded: interest moved on, and the accounting already settled
    /// the request.
    pub fn apply_slot_tile(&mut self, tile: SlotTile) -> (applied: bool)
        requires
            old(self).wf(),
        ensures
            final(self).wf(),
            applied == slot_path_valid(*old(self), tile.entry_id@),
            !applied ==> *final(self) == *old(self),
            applied ==> {
                let s0 = slot_at(*old(self), tile.entry_id@);
                let s1 = slot_at(*final(self), tile.entry_id@);
                &&& s1.tiles@.len() == s0.tiles@.len()
                &&& forall|k: int|
                    0 <= k < s0.tiles@.len() ==> (#[trigger] s1.tiles@[k]) == if s0.tiles@[k].0
                        == tile.tile_id {
                        (tile.tile_id, Some(tile.data))
                    } else {
                        s0.tiles@[k]
                    }
                &&& s1.tile_metas == s0.tile_metas
                &&& s1.entry_id == s0.entry_id
                &&& s1.expanded == s0.expanded
                &&& s1.short_name == s0.short_name
                &&& s1.long_name == s0.long_name
                &&& s1.max_rows == s0.max_rows
                &&& s1.tile_ids == s0.tile_ids
                &&& s1.last_view_interval == s0.last_view_interval
            },
            applied ==> final(self).nodes@.len() == old(self).nodes@.len() && final(self).entry_id
                == old(self).entry_id && final(self).summary == old(self).summary && final(self).expanded == old(self).expanded && (forall|p: int|
                0 <= p < old(self).nodes@.len() && p != tile.entry_id@[0]
                    ==> #[trigger] final(self).nodes@[p] == old(self).nodes@[p]) && ({
                let n0 = old(self).nodes@[tile.entry_id@[0] as int];
                let n1 = final(self).nodes@[tile.entry_id@[0] as int];
                &&& n1.kinds@.len() == n0.kinds@.len()
                &&& n1.summary == n0.summary
                &&& n1.entry_id == n0.entry_id
                &&& n1.expanded == n0.expanded
                &&& forall|q: int|
                    0 <= q < n0.kinds@.len() && q != tile.entry_id@[1]
                        ==> #[trigger] n1.kinds@[q] == n0.kinds@[q]
                &&& ({
                    let k0 = n0.kinds@[tile.entry_id@[1] as int];
                    let k1 = n1.kinds@[tile.entry_id@[1] as int];
                    &&& k1.slots@.len() == k0.slots@.len()
                    &&& k1.summary == k0.summary
                    &&& k1.entry_id == k0.entry_id
                    &&& k1.expanded == k0.expanded
                    &&& forall|r: int|
                        0 <= r < k0.slots@.len() && r != tile.entry_id@[2]
                            ==> #[trigger] k1.slots@[r] == k0.slots@[r]
                })
            }),
    {
        let pos = self.slot_pos(&tile.entry_id);
        match pos {
            None => false,
            Some((a, b, c)) => {
                let ghost nodes0 = self.nodes@;
                let node = &mut self.nodes[a];
                let ghost kinds0 = node.kinds@;
                let kind = &mut node.kinds[b];
                let ghost slots0 = kind.slots@;
                let slot = &mut kind.slots[c];
                slot.store_tile(tile.tile_id, tile.data);
                proof {
                    let s2 = *final(slot);
                    let k2 = *final(kind);
                    let n2 = *final(node);
                    assert(k2.slots@ =~= slots0.update(c as int, s2));
                    assert(n2.kinds@ =~= kinds0.update(b as int, k2));
                    assert(self.nodes@ =~= nodes0.update(a as int, n2));
                    assert forall|i: int| 0 <= i < self.nodes@.len() implies (
                    #[trigger] self.nodes@[i]).wf() && self.nodes@[i].entry_id@
                        == self.entry_id@.push(i as i64) by {
                        if i != a {
                            assert(self.nodes@[i] == nodes0[i]);
                        } else {
                            assert forall|j: int| 0 <= j < n2.kinds@.len() implies (
                            #[trigger] n2.kinds@[j]).wf() && n2.kinds@[j].entry_id@
                                == n2.entry_id@.push(j as i64) by {
                                if j != b {
                                    assert(n2.kinds@[j] == kinds0[j]);
                                } else {
                                    assert forall|l: int| 0 <= l < k2.slots@.len() implies (
                                    #[trigger] k2.slots@[l]).wf() && k2.slots@[l].entry_id@
                                        == k2.entry_id@.push(l as i64) by {
                                        if l != c {
                                            assert(k2.slots@[l] == slots0[l]);
                                        }
                                    }
                                }
                            }
                        }
                    }
                }
                true
            },
        }
    }

    /// Writes an arrived metadata payload into the slot it echoes, or
    /// silently discards it if the entry no longer exists.
    pub fn apply_slot_meta_tile(&mut self, tile: SlotMetaTile) -> (applied: bool)
        requires
            old(self).wf(),
        ensures
            final(self).wf(),
            applied == slot_path_valid(*old(self), tile.entry_id@),
            !applied ==> *final(self) == *old(self),
            applied ==> ({
                let s0 = slot_at(*old(self), tile.entry_id@);
                let s1 = slot_at(*final(self), tile.entry_id@);
                &&& s1.tile_metas@.len() == s0.tile_metas@.len()
                &&& forall|k: int|
                    0 <= k < s0.tile_metas@.len() ==> (#[trigger] s1.tile_metas@[k]) == if s0.tile_metas@[k].0
                        == tile.tile_id {
                        (tile.tile_id, Some(tile.data))
                    } else {
                        s0.tile_metas@[k]
                    }
                &&& s1.tiles == s0.tiles
                &&& s1.entry_id == s0.entry_id
                &&& s1.expanded == s0.expanded
                &&& s1.short_name == s0.short_name
                &&& s1.long_name == s0.long_name
                &&& s1.max_rows == s0.max_rows
                &&& s1.tile_ids == s0.tile_ids
                &&& s1.last_view_interval == s0.last_view_interval
            }),
            applied ==> final(self).nodes@.len() == old(self).nodes@.len() && final(self).entry_id
                == old(self).entry_id && final(self).summary == old(self).summary && final(self).expanded == old(self).expanded && (forall|p: int|
                0 <= p < old(self).nodes@.len() && p != tile.entry_id@[0]
                    ==> #[trigger] final(self).nodes@[p] == old(self).nodes@[p]) && ({
                let n0 = old(self).nodes@[tile.entry_id@[0] as int];
                let n1 = final(self).nodes@[tile.entry_id@[0] as int];
                &&& n1.kinds@.len() == n0.kinds@.len()
                &&& n1.summary == n0.summary
                &&& n1.entry_id == n0.entry_id
                &&& n1.expanded == n0.expanded
                &&& forall|q: int|
                    0 <= q < n0.kinds@.len() && q != tile.entry_id@[1]
                        ==> #[trigger] n1.kinds@[q] == n0.kinds@[q]
                &&& ({
                    let k0 = n0.kinds@[tile.entry_id@[1] as int];
                    let k1 = n1.kinds@[tile.entry_id@[1] as int];
                    &&& k1.slots@.len() == k0.slots@.len()
                    &&& k1.summary == k0.summary
                    &&& k1.entry_id == k0.entry_id
                    &&& k1.expanded == k0.expanded
                    &&& forall|r: int|
                        0 <= r < k0.slots@.len() && r != tile.entry_id@[2]
                            ==> #[trigger] k1.slots@[r] == k0.slots@[r]
                })
            }),
    {
        let pos = self.slot_pos(&tile.entry_id);
        match pos {
            None => false,
            Some((a, b, c)) => {
                let ghost nodes0 = self.nodes@;
                let node = &mut self.nodes[a];
                let ghost kinds0 = node.kinds@;
                let kind = &mut node.kinds[b];
                let ghost slots0 = kind.slots@;
                let slot = &mut kind.slots[c];
                slot.store_meta_tile(tile.tile_id, tile.data);
                proof {
                    let s2 = *final(slot);
                    let k2 = *final(kind);
                    let n2 = *final(node);
                    assert(k2.slots@ =~= slots0.update(c as int, s2));
                    assert(n2.kinds@ =~= kinds0.update(b as int, k2));
                    assert(self.nodes@ =~= nodes0.update(a as int, n2));
                    assert forall|i: int| 0 <= i < self.nodes@.len() implies (
                    #[trigger] self.nodes@[i]).wf() && self.nodes@[i].entry_id@
                        == self.entry_id@.push(i as i64) by {
                        if i != a {
                            assert(self.nodes@[i] == nodes0[i]);
                        } else {
                            assert forall|j: int| 0 <= j < n2.kinds@.len() implies (
                            #[trigger] n2.kinds@[j]).wf() && n2.kinds@[j].entry_id@
                                == n2.entry_id@.push(j as i64) by {
                                if j != b {
                                    assert(n2.kinds@[j] == kinds0[j]);
                                } else {
                                    assert forall|l: int| 0 <= l < k2.slots@.len() implies (
                                    #[trigger] k2.slots@[l]).wf() && k2.slots@[l].entry_id@
                                        == k2.entry_id@.push(l as i64) by {
                                        if l != c {
                                            assert(k2.slots@[l] == slots0[l]);
                                        }
                                    }
                                }
                            }
                        }
                    }
                }
                true
            },
        }
    }

    /// Applies a drained batch of slot tiles in delivery order: each
    /// result whose entry still exists lands in its slot, later
    /// deliveries of the same tile winning; the rest are silently
    /// discarded.
    pub fn apply_slot_tiles(&mut self, tiles: Vec<SlotTile>)
        requires
            old(self).wf(),
        ensures
            final(self).wf(),
            forall|k: int|
                0 <= k < tiles@.len() && slot_path_valid(
                    *old(self),
                    (#[trigger] tiles@[k]).entry_id@,
                ) && !(exists|k2: int|
                    k < k2 < tiles@.len() && (#[trigger] tiles@[k2]).entry_id@
                        == tiles@[k].entry_id@ && tiles@[k2].tile_id == tiles@[k].tile_id) ==> ({
                    let s = slot_at(*final(self), tiles@[k].entry_id@);
                    forall|b: int|
                        0 <= b < s.tiles@.len() && (#[trigger] s.tiles@[b]).0 == tiles@[k].tile_id
                            ==> s.tiles@[b] == (tiles@[k].tile_id, Some(tiles@[k].data))
                }),
    {
        let ghost all = tiles@;
        let mut rest = tiles;
        proof {
            assert(all.skip(0) =~= all);
        }
        while rest.len() > 0
            invariant
                self.wf(),
                rest@ == all.skip(all.len() - rest@.len()),
                rest@.len() <= all.len(),
                self.nodes@.len() == old(self).nodes@.len(),
                forall|a: int|
                    0 <= a < old(self).nodes@.len() ==> (#[trigger] self.nodes@[a]).kinds@.len()
                        == old(self).nodes@[a].kinds@.len(),
                forall|a: int, j: int|
                    0 <= a < old(self).nodes@.len() && 0 <= j < old(self).nodes@[a].kinds@.len()
                        ==> (#[trigger] self.nodes@[a].kinds@[j]).slots@.len() == old(
                        self,
                    ).nodes@[a].kinds@[j].slots@.len(),
                forall|k: int|
                    0 <= k < all.len() - rest@.len() && slot_path_valid(
                        *old(self),
                        (#[trigger] all[k]).entry_id@,
                    ) && !(exists|k2: int|
                        k < k2 < all.len() && (#[trigger] all[k2]).entry_id@ == all[k].entry_id@
                            && all[k2].tile_id == all[k].tile_id) ==> ({
                        let s = slot_at(*self, all[k].entry_id@);
                        forall|b: int|
                            0 <= b < s.tiles@.len() && (#[trigger] s.tiles@[b]).0
                                == all[k].tile_id ==> s.tiles@[b] == (
                            all[k].tile_id,
                            Some(all[k].data),
                        )
                    }),
            decreases rest@.len(),
        {
            let ghost k = all.len() - rest@.len();
            let ghost panel0 = *self;
            let tile = rest.remove(0);
            proof {
                assert(tile == all[k as int]);
                assert(rest@ =~= all.skip(k + 1));
                assert(slot_path_valid(panel0, tile.entry_id@) == slot_path_valid(
                    *old(self),
                    tile.entry_id@,
                ));
            }
            self.apply_slot_tile(tile);
            proof {
                assert forall|kk: int|
                    0 <= kk < k + 1 && slot_path_valid(*old(self), (#[trigger] all[kk]).entry_id@)
                        && !(exists|k2: int|
                        kk < k2 < all.len() && (#[trigger] all[k2]).entry_id@ == all[kk].entry_id@
                            && all[k2].tile_id == all[kk].tile_id) implies ({
                    let s = slot_at(*self, all[kk].entry_id@);
                    forall|b: int|
                        0 <= b < s.tiles@.len() && (#[trigger] s.tiles@[b]).0 == all[kk].tile_id
                            ==> s.tiles@[b] == (all[kk].tile_id, Some(all[kk].data))
                }) by {
                    let path = all[kk].entry_id@;
                    if kk == k {
                        // Just applied: the target slot's matching
                        // buckets now hold this payload.
                        assert(slot_path_valid(panel0, path));
                        let s0 = slot_at(panel0, path);
                        let s = slot_at(*self, path);
                        assert forall|b: int|
                            0 <= b < s.tiles@.len() && (#[trigger] s.tiles@[b]).0
                                == all[kk].tile_id implies s.tiles@[b] == (
                            all[kk].tile_id,
                            Some(all[kk].data),
                        ) by {
                            if s0.tiles@[b].0 != all[kk].tile_id {
                                assert(s.tiles@[b] == s0.tiles@[b]);
                            }
                        }
                    } else {
                        // Settled earlier; this step touched a
                        // different slot, or a different tile of the
                        // same slot.
                        let s0 = slot_at(panel0, path);
                        let s = slot_at(*self, path);
                        if slot_path_valid(panel0, all[k as int].entry_id@) {
                            if all[k as int].entry_id@ == path {
                                assert(all[k as int].tile_id != all[kk].tile_id);
                                assert forall|b: int|
                                    0 <= b < s.tiles@.len() && (#[trigger] s.tiles@[b]).0
                                        == all[kk].tile_id implies s.tiles@[b] == (
                                    all[kk].tile_id,
                                    Some(all[kk].data),
                                ) by {
                                    assert(s0.tiles@[b].0 == s.tiles@[b].0);
                                    assert(s0.tiles@[b].0 != all[k as int].tile_id);
                                    assert(s.tiles@[b] == s0.tiles@[b]);
                                }
                            } else {
                                // Different entries: the applied path
                                // differs at some level, so this slot
                                // is untouched.
                                let p1 = all[k as int].entry_id@;
                                assert(s == s0) by {
                                    if p1[0] == path[0] && p1[1] == path[1] && p1[2] == path[2] {
                                        assert(p1 =~= path);
                                    }
                                }
                            }
                        } else {
                            assert(*self == panel0);
                        }
                    }
                }
            }
        }
        proof {
            assert(all.len() - rest@.len() == all.len());
        }
    }

    /// Applies a drained batch of metadata tiles in delivery order:
    /// each result whose entry still exists lands in its slot, later
    /// deliveries of the same tile winning; the rest are silently
    /// discarded.
    pub fn apply_slot_meta_tiles(&mut self, tiles: Vec<SlotMetaTile>)
        requires
            old(self).wf(),
        ensures
            final(self).wf(),
            forall|k: int|
                0 <= k < tiles@.len() && slot_path_valid(
                    *old(self),
                    (#[trigger] tiles@[k]).entry_id@,
                ) && !(exists|k2: int|
                    k < k2 < tiles@.len() && (#[trigger] tiles@[k2]).entry_id@
                        == tiles@[k].entry_id@ && tiles@[k2].tile_id == tiles@[k].tile_id) ==> ({
                    let s = slot_at(*final(self), tiles@[k].entry_id@);
                    forall|b: int|
                        0 <= b < s.tile_metas@.len() && (#[trigger] s.tile_metas@[b]).0
                            == tiles@[k].tile_id ==> s.tile_metas@[b] == (
                        tiles@[k].tile_id,
                        Some(tiles@[k].data),
                    )
                }),
    {
        let ghost all = tiles@;
        let mut rest = tiles;
        proof {
            assert(all.skip(0) =~= all);
        }
        while rest.len() > 0
            invariant
                self.wf(),
                rest@ == all.skip(all.len() - rest@.len()),
                rest@.len() <= all.len(),
                self.nodes@.len() == old(self).nodes@.len(),
                forall|a: int|
                    0 <= a < old(self).nodes@.len() ==> (#[trigger] self.nodes@[a]).kinds@.len()
                        == old(self).nodes@[a].kinds@.len(),
                forall|a: int, j: int|
                    0 <= a < old(self).nodes@.len() && 0 <= j < old(self).nodes@[a].kinds@.len()
                        ==> (#[trigger] self.nodes@[a].kinds@[j]).slots@.len() == old(
                        self,
                    ).nodes@[a].kinds@[j].slots@.len(),
                forall|k: int|
                    0 <= k < all.len() - rest@.len() && slot_path_valid(
                        *old(self),
                        (#[trigger] all[k]).entry_id@,
                    ) && !(exists|k2: int|
                        k < k2 < all.len() && (#[trigger] all[k2]).entry_id@ == all[k].entry_id@
                            && all[k2].tile_id == all[k].tile_id) ==> ({
                        let s = slot_at(*self, all[k].entry_id@);
                        forall|b: int|
                            0 <= b < s.tile_metas@.len() && (#[trigger] s.tile_metas@[b]).0
                                == all[k].tile_id ==> s.tile_metas@[b] == (
                            all[k].tile_id,
                            Some(all[k].data),
                        )
                    }),
            decreases rest@.len(),
        {
            let ghost k = all.len() - rest@.len();
            let ghost panel0 = *self;
            let tile = rest.remove(0);
            proof {
                assert(tile == all[k as int]);
                assert(rest@ =~= all.skip(k + 1));
                assert(slot_path_valid(panel0, tile.entry_id@) == slot_path_valid(
                    *old(self),
                    tile.entry_id@,
                ));
            }
            self.apply_slot_meta_tile(tile);
            proof {
                assert forall|kk: int|
                    0 <= kk < k + 1 && slot_path_valid(*old(self), (#[trigger] all[kk]).entry_id@)
                        && !(exists|k2: int|
                        kk < k2 < all.len() && (#[trigger] all[k2]).entry_id@ == all[kk].entry_id@
                            && all[k2].tile_id == all[kk].tile_id) implies ({
                    let s = slot_at(*self, all[kk].entry_id@);
                    forall|b: int|
                        0 <= b < s.tile_metas@.len() && (#[trigger] s.tile_metas@[b]).0
                            == all[kk].tile_id ==> s.tile_metas@[b] == (
                        all[kk].tile_id,
                        Some(all[kk].data),
                    )
                }) by {
                    let path = all[kk].entry_id@;
                    if kk == k {
                        assert(slot_path_valid(panel0, path));
                        let s0 = slot_at(panel0, path);
                        let s = slot_at(*self, path);
                        assert forall|b: int|
                            0 <= b < s.tile_metas@.len() && (#[trigger] s.tile_metas@[b]).0
                                == all[kk].tile_id implies s.tile_metas@[b] == (
                            all[kk].tile_id,
                            Some(all[kk].data),
                        ) by {
                            if s0.tile_metas@[b].0 != all[kk].tile_id {
                                assert(s.tile_metas@[b] == s0.tile_metas@[b]);
                            }
                        }
                    } else {
                        let s0 = slot_at(panel0, path);
                        let s = slot_at(*self, path);
                        if slot_path_valid(panel0, all[k as int].entry_id@) {
                            if all[k as int].entry_id@ == path {
                                assert(all[k as int].tile_id != all[kk].tile_id);
                                assert forall|b: int|
                                    0 <= b < s.tile_metas@.len() && (#[trigger] s.tile_metas@[b]).0
                                        == all[kk].tile_id implies s.tile_metas@[b] == (
                                    all[kk].tile_id,
                                    Some(all[kk].data),
                                ) by {
                                    assert(s0.tile_metas@[b].0 == s.tile_metas@[b].0);
                                    assert(s0.tile_metas@[b].0 != all[k as int].tile_id);
                                    assert(s.tile_metas@[b] == s0.tile_metas@[b]);
                                }
                            } else {
                                let p1 = all[k as int].entry_id@;
                                assert(s == s0) by {
                                    if p1[0] == path[0] && p1[1] == path[1] && p1[2] == path[2] {
                                        assert(p1 =~= path);
                                    }
                                }
                            }
                        } else {
                            assert(*self == panel0);
                        }
                    }
                }
            }
        }
        proof {
            assert(all.len() - rest@.len() == all.len());
        }
    }

    /// Applies a drained batch of summary tiles in delivery order:
    /// each result whose summary still exists lands in it, later
    /// deliveries for the same plot and tile winning; the rest are
    /// silently discarded.
    pub fn apply_summary_tiles(&mut self, tiles: Vec<SummaryTile>)
        requires
            old(self).wf(),
        ensures
            final(self).wf(),
            forall|k: int|
                0 <= k < tiles@.len() && summary_path_valid(
                    *old(self),
                    (#[trigger] tiles@[k]).entry_id@,
                ) && !(exists|k2: int|
                    k < k2 < tiles@.len() && summary_paths_alias(
                        (#[trigger] tiles@[k2]).entry_id@,
                        tiles@[k].entry_id@,
                    ) && tiles@[k2].tile_id == tiles@[k].tile_id) ==> ({
                    let sm = summary_at(*final(self), tiles@[k].entry_id@);
                    forall|b: int|
                        0 <= b < sm.tiles@.len() && (#[trigger] sm.tiles@[b]).0
                            == tiles@[k].tile_id ==> sm.tiles@[b] == (
                        tiles@[k].tile_id,
                        Some(tiles@[k].data),
                    )
                }),
    {
        let ghost all = tiles@;
        let mut rest = tiles;
        proof {
            assert(all.skip(0) =~= all);
        }
        while rest.len() > 0
            invariant
                self.wf(),
                rest@ == all.skip(all.len() - rest@.len()),
                rest@.len() <= all.len(),
                self.nodes@.len() == old(self).nodes@.len(),
                (self.summary is Some) == (old(self).summary is Some),
                forall|a: int|
                    0 <= a < old(self).nodes@.len() ==> (#[trigger] self.nodes@[a]).kinds@.len()
                        == old(self).nodes@[a].kinds@.len() && ((self.nodes@[a].summary is Some)
                        == (old(self).nodes@[a].summary is Some)),
                forall|a: int, j: int|
                    0 <= a < old(self).nodes@.len() && 0 <= j < old(self).nodes@[a].kinds@.len()
                        ==> ((#[trigger] self.nodes@[a].kinds@[j]).summary is Some) == (old(
                        self,
                    ).nodes@[a].kinds@[j].summary is Some),
                forall|k: int|
                    0 <= k < all.len() - rest@.len() && summary_path_valid(
                        *old(self),
                        (#[trigger] all[k]).entry_id@,
                    ) && !(exists|k2: int|
                        k < k2 < all.len() && summary_paths_alias(
                            (#[trigger] all[k2]).entry_id@,
                            all[k].entry_id@,
                        ) && all[k2].tile_id == all[k].tile_id) ==> ({
                        let sm = summary_at(*self, all[k].entry_id@);
                        forall|b: int|
                            0 <= b < sm.tiles@.len() && (#[trigger] sm.tiles@[b]).0
                                == all[k].tile_id ==> sm.tiles@[b] == (
                            all[k].tile_id,
                            Some(all[k].data),
                        )
                    }),
            decreases rest@.len(),
        {
            let ghost k = all.len() - rest@.len();
            let ghost panel0 = *self;
            let tile = rest.remove(0);
            proof {
                assert(tile == all[k as int]);
                assert(rest@ =~= all.skip(k + 1));
                assert(summary_path_valid(panel0, tile.entry_id@) == summary_path_valid(
                    *old(self),
                    tile.entry_id@,
                ));
            }
            let applied = self.apply_summary_tile(tile);
            proof {
                let p1 = all[k as int].entry_id@;
                assert forall|kk: int|
                    0 <= kk < k + 1 && summary_path_valid(
                        *old(self),
                        (#[trigger] all[kk]).entry_id@,
                    ) && !(exists|k2: int|
                        kk < k2 < all.len() && summary_paths_alias(
                            (#[trigger] all[k2]).entry_id@,
                            all[kk].entry_id@,
                        ) && all[k2].tile_id == all[kk].tile_id) implies ({
                    let sm = summary_at(*self, all[kk].entry_id@);
                    forall|b: int|
                        0 <= b < sm.tiles@.len() && (#[trigger] sm.tiles@[b]).0
                            == all[kk].tile_id ==> sm.tiles@[b] == (
                        all[kk].tile_id,
                        Some(all[kk].data),
                    )
                }) by {
                    let p2 = all[kk].entry_id@;
                    if kk == k {
                        assert(summary_path_valid(panel0, p2));
                        let s0 = summary_at(panel0, p2);
                        let sm = summary_at(*self, p2);
                        assert forall|b: int|
                            0 <= b < sm.tiles@.len() && (#[trigger] sm.tiles@[b]).0
                                == all[kk].tile_id implies sm.tiles@[b] == (
                            all[kk].tile_id,
                            Some(all[kk].data),
                        ) by {
                            if s0.tiles@[b].0 != all[kk].tile_id {
                                assert(sm.tiles@[b] == s0.tiles@[b]);
                            }
                        }
                    } else if !applied {
                        assert(*self == panel0);
                    } else if summary_paths_alias(p1, p2) {
                        // Same plot, and by the exclusion a different
                        // tile: the settled buckets keep their keys
                        // and payloads.
                        assert(all[k as int].tile_id != all[kk].tile_id);
                        let s0 = summary_at(panel0, p2);
                        let sm = summary_at(*self, p2);
                        assert(summary_at(panel0, p1) == s0);
                        assert(summary_at(*self, p1) == sm);
                        assert forall|b: int|
                            0 <= b < sm.tiles@.len() && (#[trigger] sm.tiles@[b]).0
                                == all[kk].tile_id implies sm.tiles@[b] == (
                            all[kk].tile_id,
                            Some(all[kk].data),
                        ) by {
                            assert(s0.tiles@[b].0 == sm.tiles@[b].0);
                            assert(s0.tiles@[b].0 != all[k as int].tile_id);
                            assert(sm.tiles@[b] == s0.tiles@[b]);
                        }
                    } else {
                        // Different plots: the step's frames leave
                        // this one untouched.
                        assert(summary_at(*self, p2) == summary_at(panel0, p2)) by {
                            if p1.len() == p2.len() {
                                assert(!(forall|i: int|
                                    0 <= i < p1.len() - 1 ==> p1[i] == p2[i]));
                            }
                        }
                    }
                }
            }
        }
        proof {
            assert(all.len() - rest@.len() == all.len());
        }
    }

    /// Marks the addressed slot and every panel on the way to it as
    /// expanded, so a found item becomes visible.
    pub fn expand_slot(&mut self, entry_id: &EntryID) -> (applied: bool)
        requires
            old(self).wf(),
        ensures
            final(self).wf(),
            applied == slot_path_valid(*old(self), entry_id@),
            !applied ==> *final(self) == *old(self),
            applied ==> final(self).expanded && final(self).nodes@[entry_id@[0] as int].expanded
                && final(self).nodes@[entry_id@[0] as int].kinds@[entry_id@[1] as int].expanded
                && slot_at(*final(self), entry_id@).expanded,
            applied ==> final(self).nodes@.len() == old(self).nodes@.len() && final(self).entry_id
                == old(self).entry_id && final(self).summary == old(self).summary && (forall|p: int|
                0 <= p < old(self).nodes@.len() && p != entry_id@[0]
                    ==> #[trigger] final(self).nodes@[p] == old(self).nodes@[p]) && ({
                let n0 = old(self).nodes@[entry_id@[0] as int];
                let n1 = final(self).nodes@[entry_id@[0] as int];
                &&& n1.kinds@.len() == n0.kinds@.len()
                &&& n1.summary == n0.summary
                &&& n1.entry_id == n0.entry_id
                &&& forall|q: int|
                    0 <= q < n0.kinds@.len() && q != entry_id@[1]
                        ==> #[trigger] n1.kinds@[q] == n0.kinds@[q]
                &&& ({
                    let k0 = n0.kinds@[entry_id@[1] as int];
                    let k1 = n1.kinds@[entry_id@[1] as int];
                    &&& k1.slots@.len() == k0.slots@.len()
                    &&& k1.summary == k0.summary
                    &&& k1.entry_id == k0.entry_id
                    &&& forall|r: int|
                        0 <= r < k0.slots@.len() && r != entry_id@[2]
                            ==> #[trigger] k1.slots@[r] == k0.slots@[r]
                    &&& slot_at(*final(self), entry_id@) == (Slot {
                        expanded: true,
                        ..slot_at(*old(self), entry_id@)
                    })
                })
            }),
    {
        let pos = self.slot_pos(entry_id);
        match pos {
            None => false,
            Some((a, b, c)) => {
                let ghost nodes0 = self.nodes@;
                let node = &mut self.nodes[a];
                let ghost kinds0 = node.kinds@;
                node.expanded = true;
                let kind = &mut node.kinds[b];
                let ghost slots0 = kind.slots@;
                kind.expanded = true;
                let slot = &mut kind.slots[c];
                slot.expanded = true;
                proof {
                    let s2 = *final(slot);
                    let k2 = *final(kind);
                    let n2 = *final(node);
                    assert(k2.slots@ =~= slots0.update(c as int, s2));
                    assert(n2.kinds@ =~= kinds0.update(b as int, k2));
                    assert(self.nodes@ =~= nodes0.update(a as int, n2));
                    assert forall|i: int| 0 <= i < self.nodes@.len() implies (
                    #[trigger] self.nodes@[i]).wf() && self.nodes@[i].entry_id@
                        == self.entry_id@.push(i as i64) by {
                        if i != a {
                            assert(self.nodes@[i] == nodes0[i]);
                        } else {
                            assert forall|j: int| 0 <= j < n2.kinds@.len() implies (
                            #[trigger] n2.kinds@[j]).wf() && n2.kinds@[j].entry_id@
                                == n2.entry_id@.push(j as i64) by {
                                if j != b {
                                    assert(n2.kinds@[j] == kinds0[j]);
                                } else {
                                    assert forall|l: int| 0 <= l < k2.slots@.len() implies (
                                    #[trigger] k2.slots@[l]).wf() && k2.slots@[l].entry_id@
                                        == k2.entry_id@.push(l as i64) by {
                                        if l != c {
                                            assert(k2.slots@[l] == slots0[l]);
                                        }
                                    }
                                }
                            }
                        }
                    }
                }
                self.expanded = true;
                true
            },
        }
    }

    /// Writes an arrived utilization payload into the summary it
    /// echoes, or silently discards it if that summary no longer
    /// exists. Summaries hang off the root, a node, or a kind: a path
    /// of slot indexes ending in the sentinel.
    pub fn apply_summary_tile(&mut self, tile: SummaryTile) -> (applied: bool)
        requires
            old(self).wf(),
        ensures
            final(self).wf(),
            applied == summary_path_valid(*old(self), tile.entry_id@),
            applied ==> summary_path_valid(*final(self), tile.entry_id@),
            !applied ==> *final(self) == *old(self),
            applied ==> summary_stored(
                summary_at(*old(self), tile.entry_id@),
                summary_at(*final(self), tile.entry_id@),
                tile.tile_id,
                tile.data,
            ),
            applied ==> final(self).nodes@.len() == old(self).nodes@.len() && final(self).entry_id
                == old(self).entry_id && final(self).expanded == old(self).expanded && final(self).short_name == old(self).short_name && final(self).long_name == old(self).long_name,
            applied && tile.entry_id@.len() == 1 ==> final(self).nodes == old(self).nodes,
            applied && tile.entry_id@.len() == 2 ==> final(self).summary == old(self).summary && (
            forall|p: int|
                0 <= p < old(self).nodes@.len() && p != tile.entry_id@[0]
                    ==> #[trigger] final(self).nodes@[p] == old(self).nodes@[p]) && ({
                let n0 = old(self).nodes@[tile.entry_id@[0] as int];
                let n1 = final(self).nodes@[tile.entry_id@[0] as int];
                n1.kinds == n0.kinds && n1.entry_id == n0.entry_id && n1.expanded == n0.expanded
                    && n1.short_name == n0.short_name && n1.long_name == n0.long_name
            }),
            applied && tile.entry_id@.len() == 3 ==> final(self).summary == old(self).summary && (
            forall|p: int|
                0 <= p < old(self).nodes@.len() && p != tile.entry_id@[0]
                    ==> #[trigger] final(self).nodes@[p] == old(self).nodes@[p]) && ({
                let n0 = old(self).nodes@[tile.entry_id@[0] as int];
                let n1 = final(self).nodes@[tile.entry_id@[0] as int];
                &&& n1.summary == n0.summary
                &&& n1.entry_id == n0.entry_id
                &&& n1.expanded == n0.expanded
                &&& n1.short_name == n0.short_name
                &&& n1.long_name == n0.long_name
                &&& n1.kinds@.len() == n0.kinds@.len()
                &&& forall|q: int|
                    0 <= q < n0.kinds@.len() && q != tile.entry_id@[1]
                        ==> #[trigger] n1.kinds@[q] == n0.kinds@[q]
                &&& ({
                    let k0 = n0.kinds@[tile.entry_id@[1] as int];
                    let k1 = n1.kinds@[tile.entry_id@[1] as int];
                    k1.slots == k0.slots && k1.entry_id == k0.entry_id && k1.expanded
                        == k0.expanded && k1.short_name == k0.short_name && k1.long_name
                        == k0.long_name
                })
            }),
    {
        let level = tile.entry_id.level();
        if level == 1 {
            match tile.entry_id.last_index() {
                Some(crate::data::EntryIndex::Summary) => {
                    if self.summary.is_none() {
                        return false;
                    }
                    match &mut self.summary {
                        Some(summary) => {
                            summary.store_tile(tile.tile_id, tile.data);
                            proof {
                                assert(final(summary).entry_id@ == self.entry_id@.push(-1i64));
                                assert(self.summary == Some(*final(summary)));
                                assert(summary_path_valid(*old(self), tile.entry_id@));
                                assert(summary_at(*old(self), tile.entry_id@) == old(self).summary->Some_0);
                                assert(summary_at(*self, tile.entry_id@) == *final(summary));
                            }
                        },
                        None => {
                            proof {
                                assert(false);
                            }
                        },
                    }
                    true
                },
                _ => false,
            }
        } else if level == 2 {
            let a = match tile.entry_id.slot_index(0) {
                Some(v) => v,
                None => {
                    return false;
                },
            };
            match tile.entry_id.last_index() {
                Some(crate::data::EntryIndex::Summary) => {
                    if a >= self.nodes.len() as u64 {
                        return false;
                    }
                    if self.nodes[a as usize].summary.is_none() {
                        return false;
                    }
                    let ghost nodes0 = self.nodes@;
                    let node = &mut self.nodes[a as usize];
                    match &mut node.summary {
                        Some(summary) => {
                            summary.store_tile(tile.tile_id, tile.data);
                            proof {
                                assert(final(node).summary == Some(*final(summary)));
                            }
                        },
                        None => {
                            proof {
                                assert(false);
                            }
                        },
                    }
                    proof {
                        let n2 = *final(node);
                        assert(n2.wf());
                        assert(self.nodes@ =~= nodes0.update(a as int, n2));
                        assert forall|i: int| 0 <= i < self.nodes@.len() implies (
                        #[trigger] self.nodes@[i]).wf() && self.nodes@[i].entry_id@
                            == self.entry_id@.push(i as i64) by {
                            if i != a {
                                assert(self.nodes@[i] == nodes0[i]);
                            }
                        }
                        assert(summary_path_valid(*old(self), tile.entry_id@));
                        assert(summary_at(*old(self), tile.entry_id@) == nodes0[a as int].summary->Some_0);
                        assert(summary_at(*self, tile.entry_id@) == n2.summary->Some_0);
                        assert forall|p: int|
                            0 <= p < nodes0.len() && p != a implies #[trigger] self.nodes@[p]
                            == nodes0[p] by {}
                    }
                    true
                },
                _ => false,
            }
        } else if level == 3 {
            let a = match tile.entry_id.slot_index(0) {
                Some(v) => v,
                None => {
                    return false;
                },
            };
            let b = match tile.entry_id.slot_index(1) {
                Some(v) => v,
                None => {
                    return false;
                },
            };
            match tile.entry_id.last_index() {
                Some(crate::data::EntryIndex::Summary) => {
                    if a >= self.nodes.len() as u64 {
                        return false;
                    }
                    if b >= self.nodes[a as usize].kinds.len() as u64 {
                        return false;
                    }
                    if self.nodes[a as usize].kinds[b as usize].summary.is_none() {
                        return false;
                    }
                    let ghost nodes0 = self.nodes@;
                    let node = &mut self.nodes[a as usize];
                    let ghost kinds0 = node.kinds@;
                    let kind = &mut node.kinds[b as usize];
                    match &mut kind.summary {
                        Some(summary) => {
                            summary.store_tile(tile.tile_id, tile.data);
                            proof {
                                assert(final(kind).summary == Some(*final(summary)));
                            }
                        },
                        None => {
                            proof {
                                assert(false);
                            }
                        },
                    }
                    proof {
                        let k2 = *final(kind);
                        let n2 = *final(node);
                        assert(k2.wf());
                        assert(n2.kinds@ =~= kinds0.update(b as int, k2));
                        assert(self.nodes@ =~= nodes0.update(a as int, n2));
                        assert forall|i: int| 0 <= i < self.nodes@.len() implies (
                        #[trigger] self.nodes@[i]).wf() && self.nodes@[i].entry_id@
                            == self.entry_id@.push(i as i64) by {
                            if i != a {
                                assert(self.nodes@[i] == nodes0[i]);
                            } else {
                                assert forall|j: int| 0 <= j < n2.kinds@.len() implies (
                                #[trigger] n2.kinds@[j]).wf() && n2.kinds@[j].entry_id@
                                    == n2.entry_id@.push(j as i64) by {
                                    if j != b {
                                        assert(n2.kinds@[j] == kinds0[j]);
                                    }
                                }
                            }
                        }
                        assert(summary_path_valid(*old(self), tile.entry_id@));
                        assert(summary_at(*old(self), tile.entry_id@) == kinds0[b as int].summary->Some_0);
                        assert(summary_at(*self, tile.entry_id@) == k2.summary->Some_0);
                        assert forall|p: int|
                            0 <= p < nodes0.len() && p != a implies #[trigger] self.nodes@[p]
                            == nodes0[p] by {}
                        assert forall|q: int|
                            0 <= q < kinds0.len() && q != b implies #[trigger] n2.kinds@[q]
                            == kinds0[q] by {}
                    }
                    true
                },
                _ => false,
            }
        } else {
            false
        }
    }
}

/// Whether the slot tile cache already has a bucket for this tile.
fn has_tile_key_slot(tiles: &Vec<(TileID, Option<SlotTileData>)>, tile_id: TileID) -> (r: bool)
    ensures
        r == exists|k: int| 0 <= k < tiles@.len() && (#[trigger] tiles@[k]).0 == tile_id,
{
    let n = tiles.len();
    let mut k: usize = 0;
    while k < n
        invariant
            n == tiles@.len(),
            0 <= k <= n,
            forall|j: int| 0 <= j < k ==> (#[trigger] tiles@[j]).0 != tile_id,
        decreases n - k,
    {
        if tiles[k].0 == tile_id {
            return true;
        }
        k += 1;
    }
    false
}

/// Whether the metadata cache already has a bucket for this tile.
fn has_tile_key_meta(tiles: &Vec<(TileID, Option<SlotMetaTileData>)>, tile_id: TileID) -> (r: bool)
    ensures
        r == exists|k: int| 0 <= k < tiles@.len() && (#[trigger] tiles@[k]).0 == tile_id,
{
    let n = tiles.len();
    let mut k: usize = 0;
    while k < n
        invariant
            n == tiles@.len(),
            0 <= k <= n,
            forall|j: int| 0 <= j < k ==> (#[trigger] tiles@[j]).0 != tile_id,
        decreases n - k,
    {
        if tiles[k].0 == tile_id {
            return true;
        }
        k += 1;
    }
    false
}

} // verus!
