//! The deferred fetch/drain protocol and its request accounting.
//!
//! A deferred data source turns a synchronous fetch interface into a
//! fire-and-forget protocol: `fetch_*` submits a request and returns at
//! once, and a later `get_*` drain returns whatever completed, in any
//! order. Each source tracks, per request kind, how many requests are
//! in flight — fetched but not yet drained — and a drain can never
//! return more results than are in flight. A counting layer adds one
//! outstanding-request counter over all kinds, the sole signal callers
//! use to decide whether to keep polling.

use vstd::prelude::*;

use crate::data::{DataSourceInfo, DataSourceMut, EntryID, SlotMetaTile, SlotTile, SummaryTile,
    TileID};

verus! {

/// A fire-and-forget data source: every fetch returns at once, and a
/// matching drain later hands back completed results in any order. The
/// in-flight counts say, per request kind, how many requests were
/// fetched and not yet drained; no drain may return more than that.
pub trait DeferredDataSource: Sized {
    /// How many info requests are in flight.
    spec fn inflight_infos(&self) -> nat;

    /// How many summary tile requests are in flight.
    spec fn inflight_summary_tiles(&self) -> nat;

    /// How many slot tile requests are in flight.
    spec fn inflight_slot_tiles(&self) -> nat;

    /// How many slot metadata tile requests are in flight.
    spec fn inflight_slot_meta_tiles(&self) -> nat;

    /// The completed info results waiting to be drained, in completion
    /// order.
    spec fn ready_infos(&self) -> Seq<DataSourceInfo>;

    /// The completed summary tiles waiting to be drained.
    spec fn ready_summary_tiles(&self) -> Seq<SummaryTile>;

    /// The completed slot tiles waiting to be drained.
    spec fn ready_slot_tiles(&self) -> Seq<SlotTile>;

    /// The completed slot metadata tiles waiting to be drained.
    spec fn ready_slot_meta_tiles(&self) -> Seq<SlotMetaTile>;

    /// Submits a request for the source's static description.
    /// Completed results are never dropped, and no other kind is
    /// touched.
    fn fetch_info(&mut self)
        ensures
            final(self).inflight_infos() == old(self).inflight_infos() + 1,
            final(self).inflight_summary_tiles() == old(self).inflight_summary_tiles(),
            final(self).inflight_slot_tiles() == old(self).inflight_slot_tiles(),
            final(self).inflight_slot_meta_tiles() == old(self).inflight_slot_meta_tiles(),
            old(self).ready_infos().is_prefix_of(final(self).ready_infos()),
            final(self).ready_summary_tiles() == old(self).ready_summary_tiles(),
            final(self).ready_slot_tiles() == old(self).ready_slot_tiles(),
            final(self).ready_slot_meta_tiles() == old(self).ready_slot_meta_tiles(),
    ;

    /// Drains the completed info results: exactly what was ready, in
    /// order, leaving nothing behind; no other kind is touched.
    fn get_infos(&mut self) -> (r: Vec<DataSourceInfo>)
        ensures
            r@ == old(self).ready_infos(),
            r@.len() <= old(self).inflight_infos(),
            final(self).inflight_infos() == old(self).inflight_infos() - r@.len(),
            final(self).inflight_summary_tiles() == old(self).inflight_summary_tiles(),
            final(self).inflight_slot_tiles() == old(self).inflight_slot_tiles(),
            final(self).inflight_slot_meta_tiles() == old(self).inflight_slot_meta_tiles(),
            final(self).ready_infos() == Seq::<DataSourceInfo>::empty(),
            final(self).ready_summary_tiles() == old(self).ready_summary_tiles(),
            final(self).ready_slot_tiles() == old(self).ready_slot_tiles(),
            final(self).ready_slot_meta_tiles() == old(self).ready_slot_meta_tiles(),
    ;

    /// Submits a request for one summary tile. The `full` flag is a
    /// fidelity hint passed through to the transport. Any result that
    /// becomes ready during the call echoes this request; nothing else
    /// changes.
    fn fetch_summary_tile(&mut self, entry_id: &EntryID, tile_id: TileID, full: bool)
        ensures
            final(self).inflight_summary_tiles() == old(self).inflight_summary_tiles() + 1,
            final(self).inflight_infos() == old(self).inflight_infos(),
            final(self).inflight_slot_tiles() == old(self).inflight_slot_tiles(),
            final(self).inflight_slot_meta_tiles() == old(self).inflight_slot_meta_tiles(),
            old(self).ready_summary_tiles().is_prefix_of(final(self).ready_summary_tiles()),
            forall|k: int|
                old(self).ready_summary_tiles().len() <= k < final(self).ready_summary_tiles().len() ==> (#[trigger] final(self).ready_summary_tiles()[k]).entry_id@ == entry_id@ && final(self).ready_summary_tiles()[k].tile_id == tile_id,
            final(self).ready_infos() == old(self).ready_infos(),
            final(self).ready_slot_tiles() == old(self).ready_slot_tiles(),
            final(self).ready_slot_meta_tiles() == old(self).ready_slot_meta_tiles(),
    ;

    /// Drains the completed summary tiles: exactly what was ready, in
    /// order, leaving nothing behind; no other kind is touched.
    fn get_summary_tiles(&mut self) -> (r: Vec<SummaryTile>)
        ensures
            r@ == old(self).ready_summary_tiles(),
            r@.len() <= old(self).inflight_summary_tiles(),
            final(self).inflight_summary_tiles() == old(self).inflight_summary_tiles()
                - r@.len(),
            final(self).inflight_infos() == old(self).inflight_infos(),
            final(self).inflight_slot_tiles() == old(self).inflight_slot_tiles(),
            final(self).inflight_slot_meta_tiles() == old(self).inflight_slot_meta_tiles(),
            final(self).ready_summary_tiles() == Seq::<SummaryTile>::empty(),
            final(self).ready_infos() == old(self).ready_infos(),
            final(self).ready_slot_tiles() == old(self).ready_slot_tiles(),
            final(self).ready_slot_meta_tiles() == old(self).ready_slot_meta_tiles(),
    ;

    /// Submits a request for one slot tile. Any result that becomes
    /// ready during the call echoes this request; nothing else changes.
    fn fetch_slot_tile(&mut self, entry_id: &EntryID, tile_id: TileID, full: bool)
        ensures
            final(self).inflight_slot_tiles() == old(self).inflight_slot_tiles() + 1,
            final(self).inflight_infos() == old(self).inflight_infos(),
            final(self).inflight_summary_tiles() == old(self).inflight_summary_tiles(),
            final(self).inflight_slot_meta_tiles() == old(self).inflight_slot_meta_tiles(),
            old(self).ready_slot_tiles().is_prefix_of(final(self).ready_slot_tiles()),
            forall|k: int|
                old(self).ready_slot_tiles().len() <= k < final(self).ready_slot_tiles().len()
                    ==> (#[trigger] final(self).ready_slot_tiles()[k]).entry_id@ == entry_id@
                    && final(self).ready_slot_tiles()[k].tile_id == tile_id,
            final(self).ready_infos() == old(self).ready_infos(),
            final(self).ready_summary_tiles() == old(self).ready_summary_tiles(),
            final(self).ready_slot_meta_tiles() == old(self).ready_slot_meta_tiles(),
    ;

    /// Drains the completed slot tiles: exactly what was ready, in
    /// order, leaving nothing behind; no other kind is touched.
    fn get_slot_tiles(&mut self) -> (r: Vec<SlotTile>)
        ensures
            r@ == old(self).ready_slot_tiles(),
            r@.len() <= old(self).inflight_slot_tiles(),
            final(self).inflight_slot_tiles() == old(self).inflight_slot_tiles() - r@.len(),
            final(self).inflight_infos() == old(self).inflight_infos(),
            final(self).inflight_summary_tiles() == old(self).inflight_summary_tiles(),
            final(self).inflight_slot_meta_tiles() == old(self).inflight_slot_meta_tiles(),
            final(self).ready_slot_tiles() == Seq::<SlotTile>::empty(),
            final(self).ready_infos() == old(self).ready_infos(),
            final(self).ready_summary_tiles() == old(self).ready_summary_tiles(),
            final(self).ready_slot_meta_tiles() == old(self).ready_slot_meta_tiles(),
    ;

    /// Submits a request for one slot metadata tile. Any result that
    /// becomes ready during the call echoes this request; nothing else
    /// changes.
    fn fetch_slot_meta_tile(&mut self, entry_id: &EntryID, tile_id: TileID, full: bool)
        ensures
            final(self).inflight_slot_meta_tiles() == old(self).inflight_slot_meta_tiles() + 1,
            final(self).inflight_infos() == old(self).inflight_infos(),
            final(self).inflight_summary_tiles() == old(self).inflight_summary_tiles(),
            final(self).inflight_slot_tiles() == old(self).inflight_slot_tiles(),
            old(self).ready_slot_meta_tiles().is_prefix_of(final(self).ready_slot_meta_tiles()),
            forall|k: int|
                old(self).ready_slot_meta_tiles().len() <= k < final(self).ready_slot_meta_tiles().len() ==> (#[trigger] final(self).ready_slot_meta_tiles()[k]).entry_id@ == entry_id@ && final(self).ready_slot_meta_tiles()[k].tile_id == tile_id,
            final(self).ready_infos() == old(self).ready_infos(),
            final(self).ready_summary_tiles() == old(self).ready_summary_tiles(),
            final(self).ready_slot_tiles() == old(self).ready_slot_tiles(),
    ;

    /// Drains the completed slot metadata tiles: exactly what was
    /// ready, in order, leaving nothing behind; no other kind is
    /// touched.
    fn get_slot_meta_tiles(&mut self) -> (r: Vec<SlotMetaTile>)
        ensures
            r@ == old(self).ready_slot_meta_tiles(),
            r@.len() <= old(self).inflight_slot_meta_tiles(),
            final(self).inflight_slot_meta_tiles() == old(self).inflight_slot_meta_tiles()
                - r@.len(),
            final(self).inflight_infos() == old(self).inflight_infos(),
            final(self).inflight_summary_tiles() == old(self).inflight_summary_tiles(),
            final(self).inflight_slot_tiles() == old(self).inflight_slot_tiles(),
            final(self).ready_slot_meta_tiles() == Seq::<SlotMetaTile>::empty(),
            final(self).ready_infos() == old(self).ready_infos(),
            final(self).ready_summary_tiles() == old(self).ready_summary_tiles(),
            final(self).ready_slot_tiles() == old(self).ready_slot_tiles(),
    ;
}

/// Adapts a synchronous data source to the deferred protocol: each
/// fetch performs the underlying call at once and buffers the result
/// until the matching drain.
pub struct DeferredDataSourceWrapper<T: DataSourceMut> {
    pub data_source: T,
    pub infos: Vec<DataSourceInfo>,
    pub summary_tiles: Vec<SummaryTile>,
    pub slot_tiles: Vec<SlotTile>,
    pub slot_meta_tiles: Vec<SlotMetaTile>,
}

impl<T: DataSourceMut> DeferredDataSourceWrapper<T> {
    pub fn new(data_source: T) -> (r: Self)
        ensures
            r.inflight_infos() == 0,
            r.inflight_summary_tiles() == 0,
            r.inflight_slot_tiles() == 0,
            r.inflight_slot_meta_tiles() == 0,
    {
        Self {
            data_source,
            infos: Vec::new(),
            summary_tiles: Vec::new(),
            slot_tiles: Vec::new(),
            slot_meta_tiles: Vec::new(),
        }
    }
}

impl<T: DataSourceMut> DeferredDataSource for DeferredDataSourceWrapper<T> {
    open spec fn inflight_infos(&self) -> nat {
        self.infos@.len()
    }

    open spec fn inflight_summary_tiles(&self) -> nat {
        self.summary_tiles@.len()
    }

    open spec fn inflight_slot_tiles(&self) -> nat {
        self.slot_tiles@.len()
    }

    open spec fn inflight_slot_meta_tiles(&self) -> nat {
        self.slot_meta_tiles@.len()
    }

    open spec fn ready_infos(&self) -> Seq<DataSourceInfo> {
        self.infos@
    }

    open spec fn ready_summary_tiles(&self) -> Seq<SummaryTile> {
        self.summary_tiles@
    }

    open spec fn ready_slot_tiles(&self) -> Seq<SlotTile> {
        self.slot_tiles@
    }

    open spec fn ready_slot_meta_tiles(&self) -> Seq<SlotMetaTile> {
        self.slot_meta_tiles@
    }

    fn fetch_info(&mut self) {
        let info = self.data_source.fetch_info();
        self.infos.push(info);
    }

    fn get_infos(&mut self) -> (r: Vec<DataSourceInfo>) {
        let mut r: Vec<DataSourceInfo> = Vec::new();
        core::mem::swap(&mut r, &mut self.infos);
        r
    }

    fn fetch_summary_tile(&mut self, entry_id: &EntryID, tile_id: TileID, full: bool) {
        let tile = self.data_source.fetch_summary_tile(entry_id, tile_id, full);
        self.summary_tiles.push(tile);
    }

    fn get_summary_tiles(&mut self) -> (r: Vec<SummaryTile>) {
        let mut r: Vec<SummaryTile> = Vec::new();
        core::mem::swap(&mut r, &mut self.summary_tiles);
        r
    }

    fn fetch_slot_tile(&mut self, entry_id: &EntryID, tile_id: TileID, full: bool) {
        let tile = self.data_source.fetch_slot_tile(entry_id, tile_id, full);
        self.slot_tiles.push(tile);
    }

    fn get_slot_tiles(&mut self) -> (r: Vec<SlotTile>) {
        let mut r: Vec<SlotTile> = Vec::new();
        core::mem::swap(&mut r, &mut self.slot_tiles);
        r
    }

    fn fetch_slot_meta_tile(&mut self, entry_id: &EntryID, tile_id: TileID, full: bool) {
        let tile = self.data_source.fetch_slot_meta_tile(entry_id, tile_id, full);
        self.slot_meta_tiles.push(tile);
    }

    fn get_slot_meta_tiles(&mut self) -> (r: Vec<SlotMetaTile>) {
        let mut r: Vec<SlotMetaTile> = Vec::new();
        core::mem::swap(&mut r, &mut self.slot_meta_tiles);
        r
    }
}

/// An in-memory deferred source for transports that complete out of
/// band: fetches record what was requested, the transport hands
/// completed results in through `deliver_*`, and drains return them.
/// A delivery is accepted only if it echoes an entry and tile that were
/// requested and are still pending, as the transport contract demands.
pub struct QueueDataSource {
    pub pending_infos: Vec<bool>,
    pub ready_infos: Vec<DataSourceInfo>,
    pub pending_summary_tiles: Vec<(EntryID, TileID)>,
    pub ready_summary_tiles: Vec<SummaryTile>,
    pub pending_slot_tiles: Vec<(EntryID, TileID)>,
    pub ready_slot_tiles: Vec<SlotTile>,
    pub pending_slot_meta_tiles: Vec<(EntryID, TileID)>,
    pub ready_slot_meta_tiles: Vec<SlotMetaTile>,
}

impl QueueDataSource {
    pub fn new() -> (r: Self)
        ensures
            r.inflight_infos() == 0,
            r.inflight_summary_tiles() == 0,
            r.inflight_slot_tiles() == 0,
            r.inflight_slot_meta_tiles() == 0,
    {
        Self {
            pending_infos: Vec::new(),
            ready_infos: Vec::new(),
            pending_summary_tiles: Vec::new(),
            ready_summary_tiles: Vec::new(),
            pending_slot_tiles: Vec::new(),
            ready_slot_tiles: Vec::new(),
            pending_slot_meta_tiles: Vec::new(),
            ready_slot_meta_tiles: Vec::new(),
        }
    }

    /// Completes one info request with the source's description.
    /// Rejected if no info request is pending.
    pub fn deliver_info(&mut self, info: DataSourceInfo) -> (accepted: bool)
        ensures
            accepted == (old(self).pending_infos@.len() > 0),
            final(self).inflight_infos() == old(self).inflight_infos(),
            final(self).inflight_summary_tiles() == old(self).inflight_summary_tiles(),
            final(self).inflight_slot_tiles() == old(self).inflight_slot_tiles(),
            final(self).inflight_slot_meta_tiles() == old(self).inflight_slot_meta_tiles(),
            accepted ==> final(self).ready_infos@ == old(self).ready_infos@.push(info),
            !accepted ==> *final(self) == *old(self),
            final(self).ready_summary_tiles == old(self).ready_summary_tiles,
            final(self).ready_slot_tiles == old(self).ready_slot_tiles,
            final(self).ready_slot_meta_tiles == old(self).ready_slot_meta_tiles,
    {
        if self.pending_infos.len() > 0 {
            self.pending_infos.pop();
            self.ready_infos.push(info);
            true
        } else {
            false
        }
    }

    /// Completes one summary tile request. Rejected unless the tile
    /// echoes an entry and tile that are still pending.
    pub fn deliver_summary_tile(&mut self, tile: SummaryTile) -> (accepted: bool)
        ensures
            final(self).inflight_infos() == old(self).inflight_infos(),
            final(self).inflight_summary_tiles() == old(self).inflight_summary_tiles(),
            final(self).inflight_slot_tiles() == old(self).inflight_slot_tiles(),
            final(self).inflight_slot_meta_tiles() == old(self).inflight_slot_meta_tiles(),
            accepted ==> exists|k: int|
                0 <= k < old(self).pending_summary_tiles@.len() && (#[trigger] old(self).pending_summary_tiles@[k]).0@ == tile.entry_id@ && old(self).pending_summary_tiles@[k].1 == tile.tile_id,
            accepted ==> final(self).ready_summary_tiles@ == old(self).ready_summary_tiles@.push(tile),
            !accepted ==> *final(self) == *old(self),
            final(self).ready_infos == old(self).ready_infos,
            final(self).ready_slot_tiles == old(self).ready_slot_tiles,
            final(self).ready_slot_meta_tiles == old(self).ready_slot_meta_tiles,
    {
        match request_pos(&self.pending_summary_tiles, &tile.entry_id, tile.tile_id) {
            Some(k) => {
                self.pending_summary_tiles.remove(k);
                self.ready_summary_tiles.push(tile);
                true
            },
            None => false,
        }
    }

    /// Completes one slot tile request. Rejected unless the tile echoes
    /// an entry and tile that are still pending.
    pub fn deliver_slot_tile(&mut self, tile: SlotTile) -> (accepted: bool)
        ensures
            final(self).inflight_infos() == old(self).inflight_infos(),
            final(self).inflight_summary_tiles() == old(self).inflight_summary_tiles(),
            final(self).inflight_slot_tiles() == old(self).inflight_slot_tiles(),
            final(self).inflight_slot_meta_tiles() == old(self).inflight_slot_meta_tiles(),
            accepted ==> exists|k: int|
                0 <= k < old(self).pending_slot_tiles@.len() && (#[trigger] old(self).pending_slot_tiles@[k]).0@ == tile.entry_id@ && old(self).pending_slot_tiles@[
                    k
                ].1 == tile.tile_id,
            accepted ==> final(self).ready_slot_tiles@ == old(self).ready_slot_tiles@.push(tile),
            !accepted ==> *final(self) == *old(self),
            final(self).ready_infos == old(self).ready_infos,
            final(self).ready_summary_tiles == old(self).ready_summary_tiles,
            final(self).ready_slot_meta_tiles == old(self).ready_slot_meta_tiles,
    {
        match request_pos(&self.pending_slot_tiles, &tile.entry_id, tile.tile_id) {
            Some(k) => {
                self.pending_slot_tiles.remove(k);
                self.ready_slot_tiles.push(tile);
                true
            },
            None => false,
        }
    }

    /// Completes one slot metadata tile request. Rejected unless the
    /// tile echoes an entry and tile that are still pending.
    pub fn deliver_slot_meta_tile(&mut self, tile: SlotMetaTile) -> (accepted: bool)
        ensures
            final(self).inflight_infos() == old(self).inflight_infos(),
            final(self).inflight_summary_tiles() == old(self).inflight_summary_tiles(),
            final(self).inflight_slot_tiles() == old(self).inflight_slot_tiles(),
            final(self).inflight_slot_meta_tiles() == old(self).inflight_slot_meta_tiles(),
            accepted ==> exists|k: int|
                0 <= k < old(self).pending_slot_meta_tiles@.len() && (#[trigger] old(self).pending_slot_meta_tiles@[k]).0@ == tile.entry_id@ && old(self).pending_slot_meta_tiles@[k].1 == tile.tile_id,
            accepted ==> final(self).ready_slot_meta_tiles@ == old(self).ready_slot_meta_tiles@.push(tile),
            !accepted ==> *final(self) == *old(self),
            final(self).ready_infos == old(self).ready_infos,
            final(self).ready_summary_tiles == old(self).ready_summary_tiles,
            final(self).ready_slot_tiles == old(self).ready_slot_tiles,
    {
        match request_pos(&self.pending_slot_meta_tiles, &tile.entry_id, tile.tile_id) {
            Some(k) => {
                self.pending_slot_meta_tiles.remove(k);
                self.ready_slot_meta_tiles.push(tile);
                true
            },
            None => false,
        }
    }
}

/// The position of a pending request for exactly this entry and tile.
fn request_pos(pending: &Vec<(EntryID, TileID)>, entry_id: &EntryID, tile_id: TileID) -> (r:
    Option<usize>)
    ensures
        match r {
            Some(k) => k < pending@.len() && pending@[k as int].0@ == entry_id@ && pending@[
                k as int
            ].1 == tile_id,
            None => true,
        },
{
    let n = pending.len();
    let mut k: usize = 0;
    while k < n
        invariant
            n == pending@.len(),
            0 <= k <= n,
        decreases n - k,
    {
        if pending[k].0 == *entry_id && pending[k].1 == tile_id {
            return Some(k);
        }
        k += 1;
    }
    None
}

impl DeferredDataSource for QueueDataSource {
    open spec fn inflight_infos(&self) -> nat {
        self.pending_infos@.len() + self.ready_infos@.len()
    }

    open spec fn inflight_summary_tiles(&self) -> nat {
        self.pending_summary_tiles@.len() + self.ready_summary_tiles@.len()
    }

    open spec fn inflight_slot_tiles(&self) -> nat {
        self.pending_slot_tiles@.len() + self.ready_slot_tiles@.len()
    }

    open spec fn inflight_slot_meta_tiles(&self) -> nat {
        self.pending_slot_meta_tiles@.len() + self.ready_slot_meta_tiles@.len()
    }

    open spec fn ready_infos(&self) -> Seq<DataSourceInfo> {
        self.ready_infos@
    }

    open spec fn ready_summary_tiles(&self) -> Seq<SummaryTile> {
        self.ready_summary_tiles@
    }

    open spec fn ready_slot_tiles(&self) -> Seq<SlotTile> {
        self.ready_slot_tiles@
    }

    open spec fn ready_slot_meta_tiles(&self) -> Seq<SlotMetaTile> {
        self.ready_slot_meta_tiles@
    }

    fn fetch_info(&mut self) {
        self.pending_infos.push(true);
    }

    fn get_infos(&mut self) -> (r: Vec<DataSourceInfo>) {
        let mut r: Vec<DataSourceInfo> = Vec::new();
        core::mem::swap(&mut r, &mut self.ready_infos);
        r
    }

    fn fetch_summary_tile(&mut self, entry_id: &EntryID, tile_id: TileID, full: bool) {
        self.pending_summary_tiles.push((entry_id.clone(), tile_id));
    }

    fn get_summary_tiles(&mut self) -> (r: Vec<SummaryTile>) {
        let mut r: Vec<SummaryTile> = Vec::new();
        core::mem::swap(&mut r, &mut self.ready_summary_tiles);
        r
    }

    fn fetch_slot_tile(&mut self, entry_id: &EntryID, tile_id: TileID, full: bool) {
        self.pending_slot_tiles.push((entry_id.clone(), tile_id));
    }

    fn get_slot_tiles(&mut self) -> (r: Vec<SlotTile>) {
        let mut r: Vec<SlotTile> = Vec::new();
        core::mem::swap(&mut r, &mut self.ready_slot_tiles);
        r
    }

    fn fetch_slot_meta_tile(&mut self, entry_id: &EntryID, tile_id: TileID, full: bool) {
        self.pending_slot_meta_tiles.push((entry_id.clone(), tile_id));
    }

    fn get_slot_meta_tiles(&mut self) -> (r: Vec<SlotMetaTile>) {
        let mut r: Vec<SlotMetaTile> = Vec::new();
        core::mem::swap(&mut r, &mut self.ready_slot_meta_tiles);
        r
    }
}

/// Counts the requests in flight across a wrapped deferred source:
/// every fetch adds one to the counter, and every drain subtracts
/// exactly the number of results it returned. The counter equals the
/// sum of the source's per-kind in-flight counts, so it can never go
/// negative: a drain can never reap more completions than were fetched.
pub struct CountingDeferredDataSource<T: DeferredDataSource> {
    pub data_source: T,
    pub outstanding_requests: u64,
}

impl<T: DeferredDataSource> CountingDeferredDataSource<T> {
    /// The sum of the wrapped source's in-flight counts.
    pub open spec fn inflight_total(&self) -> int {
        self.data_source.inflight_infos() as int + self.data_source.inflight_summary_tiles()
            + self.data_source.inflight_slot_tiles()
            + self.data_source.inflight_slot_meta_tiles()
    }

    /// The counter is exact: it always equals the number of requests in
    /// flight.
    pub open spec fn wf(&self) -> bool {
        self.outstanding_requests == self.inflight_total()
    }

    pub fn new(data_source: T) -> (r: Self)
        requires
            data_source.inflight_infos() == 0,
            data_source.inflight_summary_tiles() == 0,
            data_source.inflight_slot_tiles() == 0,
            data_source.inflight_slot_meta_tiles() == 0,
        ensures
            r.wf(),
            r.outstanding_requests == 0,
            r.data_source == data_source,
    {
        Self { data_source, outstanding_requests: 0 }
    }

    /// The number of requests fetched and not yet drained. While this
    /// is positive the caller keeps polling.
    pub fn outstanding_requests(&self) -> (r: u64)
        ensures
            r == self.outstanding_requests,
    {
        self.outstanding_requests
    }

    fn start_request(&mut self)
        requires
            old(self).outstanding_requests < u64::MAX,
        ensures
            final(self).outstanding_requests == old(self).outstanding_requests + 1,
            final(self).data_source == old(self).data_source,
    {
        self.outstanding_requests = self.outstanding_requests + 1;
    }

    pub fn fetch_info(&mut self)
        requires
            old(self).wf(),
            old(self).outstanding_requests < u64::MAX,
        ensures
            final(self).wf(),
            final(self).outstanding_requests == old(self).outstanding_requests + 1,
            final(self).data_source.inflight_infos() == old(self).data_source.inflight_infos() + 1,
            final(self).data_source.inflight_summary_tiles() == old(self).data_source.inflight_summary_tiles(),
            final(self).data_source.inflight_slot_tiles() == old(self).data_source.inflight_slot_tiles(),
            final(self).data_source.inflight_slot_meta_tiles() == old(self).data_source.inflight_slot_meta_tiles(),
            old(self).data_source.ready_infos().is_prefix_of(final(self).data_source.ready_infos()),
            final(self).data_source.ready_summary_tiles() == old(self).data_source.ready_summary_tiles(),
            final(self).data_source.ready_slot_tiles() == old(self).data_source.ready_slot_tiles(),
            final(self).data_source.ready_slot_meta_tiles() == old(self).data_source.ready_slot_meta_tiles(),
    {
        self.start_request();
        self.data_source.fetch_info();
    }

    /// Drains completed info results and settles their requests: the
    /// counter drops by exactly the number of results returned.
    pub fn get_infos(&mut self) -> (r: Vec<DataSourceInfo>)
        requires
            old(self).wf(),
        ensures
            final(self).wf(),
            r@.len() <= old(self).outstanding_requests,
            final(self).outstanding_requests == old(self).outstanding_requests - r@.len(),
            r@ == old(self).data_source.ready_infos(),
            final(self).data_source.inflight_infos() == old(self).data_source.inflight_infos() - r@.len(),
            final(self).data_source.inflight_summary_tiles() == old(self).data_source.inflight_summary_tiles(),
            final(self).data_source.inflight_slot_tiles() == old(self).data_source.inflight_slot_tiles(),
            final(self).data_source.inflight_slot_meta_tiles() == old(self).data_source.inflight_slot_meta_tiles(),
            final(self).data_source.ready_infos().len() == 0,
            final(self).data_source.ready_summary_tiles() == old(self).data_source.ready_summary_tiles(),
            final(self).data_source.ready_slot_tiles() == old(self).data_source.ready_slot_tiles(),
            final(self).data_source.ready_slot_meta_tiles() == old(self).data_source.ready_slot_meta_tiles(),
    {
        let r = self.data_source.get_infos();
        let count = r.len() as u64;
        self.outstanding_requests = self.outstanding_requests - count;
        r
    }

    pub fn fetch_summary_tile(&mut self, entry_id: &EntryID, tile_id: TileID, full: bool)
        requires
            old(self).wf(),
            old(self).outstanding_requests < u64::MAX,
        ensures
            final(self).wf(),
            final(self).outstanding_requests == old(self).outstanding_requests + 1,
            final(self).data_source.inflight_infos() == old(self).data_source.inflight_infos(),
            final(self).data_source.inflight_summary_tiles() == old(self).data_source.inflight_summary_tiles() + 1,
            final(self).data_source.inflight_slot_tiles() == old(self).data_source.inflight_slot_tiles(),
            final(self).data_source.inflight_slot_meta_tiles() == old(self).data_source.inflight_slot_meta_tiles(),
            final(self).data_source.ready_infos() == old(self).data_source.ready_infos(),
            old(self).data_source.ready_summary_tiles().is_prefix_of(final(self).data_source.ready_summary_tiles()),
            forall|k: int|
                old(self).data_source.ready_summary_tiles().len() <= k < final(self).data_source.ready_summary_tiles().len() ==> (#[trigger] final(self).data_source.ready_summary_tiles()[k]).entry_id@ == entry_id@ && final(self).data_source.ready_summary_tiles()[k].tile_id == tile_id,
            final(self).data_source.ready_slot_tiles() == old(self).data_source.ready_slot_tiles(),
            final(self).data_source.ready_slot_meta_tiles() == old(self).data_source.ready_slot_meta_tiles(),
    {
        self.start_request();
        self.data_source.fetch_summary_tile(entry_id, tile_id, full);
    }

    /// Drains completed summary tiles and settles their requests.
    pub fn get_summary_tiles(&mut self) -> (r: Vec<SummaryTile>)
        requires
            old(self).wf(),
        ensures
            final(self).wf(),
            r@.len() <= old(self).outstanding_requests,
            final(self).outstanding_requests == old(self).outstanding_requests - r@.len(),
            r@ == old(self).data_source.ready_summary_tiles(),
            final(self).data_source.inflight_infos() == old(self).data_source.inflight_infos(),
            final(self).data_source.inflight_summary_tiles() == old(self).data_source.inflight_summary_tiles() - r@.len(),
            final(self).data_source.inflight_slot_tiles() == old(self).data_source.inflight_slot_tiles(),
            final(self).data_source.inflight_slot_meta_tiles() == old(self).data_source.inflight_slot_meta_tiles(),
            final(self).data_source.ready_infos() == old(self).data_source.ready_infos(),
            final(self).data_source.ready_summary_tiles().len() == 0,
            final(self).data_source.ready_slot_tiles() == old(self).data_source.ready_slot_tiles(),
            final(self).data_source.ready_slot_meta_tiles() == old(self).data_source.ready_slot_meta_tiles(),
    {
        let r = self.data_source.get_summary_tiles();
        let count = r.len() as u64;
        self.outstanding_requests = self.outstanding_requests - count;
        r
    }

    pub fn fetch_slot_tile(&mut self, entry_id: &EntryID, tile_id: TileID, full: bool)
        requires
            old(self).wf(),
            old(self).outstanding_requests < u64::MAX,
        ensures
            final(self).wf(),
            final(self).outstanding_requests == old(self).outstanding_requests + 1,
            final(self).data_source.inflight_infos() == old(self).data_source.inflight_infos(),
            final(self).data_source.inflight_summary_tiles() == old(self).data_source.inflight_summary_tiles(),
            final(self).data_source.inflight_slot_tiles() == old(self).data_source.inflight_slot_tiles() + 1,
            final(self).data_source.inflight_slot_meta_tiles() == old(self).data_source.inflight_slot_meta_tiles(),
            final(self).data_source.ready_infos() == old(self).data_source.ready_infos(),
            final(self).data_source.ready_summary_tiles() == old(self).data_source.ready_summary_tiles(),
            old(self).data_source.ready_slot_tiles().is_prefix_of(final(self).data_source.ready_slot_tiles()),
            forall|k: int|
                old(self).data_source.ready_slot_tiles().len() <= k < final(self).data_source.ready_slot_tiles().len() ==> (#[trigger] final(self).data_source.ready_slot_tiles()[k]).entry_id@ == entry_id@ && final(self).data_source.ready_slot_tiles()[k].tile_id == tile_id,
            final(self).data_source.ready_slot_meta_tiles() == old(self).data_source.ready_slot_meta_tiles(),
    {
        self.start_request();
        self.data_source.fetch_slot_tile(entry_id, tile_id, full);
    }

    /// Drains completed slot tiles and settles their requests.
    pub fn get_slot_tiles(&mut self) -> (r: Vec<SlotTile>)
        requires
            old(self).wf(),
        ensures
            final(self).wf(),
            r@.len() <= old(self).outstanding_requests,
            final(self).outstanding_requests == old(self).outstanding_requests - r@.len(),
            r@ == old(self).data_source.ready_slot_tiles(),
            final(self).data_source.inflight_infos() == old(self).data_source.inflight_infos(),
            final(self).data_source.inflight_summary_tiles() == old(self).data_source.inflight_summary_tiles(),
            final(self).data_source.inflight_slot_tiles() == old(self).data_source.inflight_slot_tiles() - r@.len(),
            final(self).data_source.inflight_slot_meta_tiles() == old(self).data_source.inflight_slot_meta_tiles(),
            final(self).data_source.ready_infos() == old(self).data_source.ready_infos(),
            final(self).data_source.ready_summary_tiles() == old(self).data_source.ready_summary_tiles(),
            final(self).data_source.ready_slot_tiles().len() == 0,
            final(self).data_source.ready_slot_meta_tiles() == old(self).data_source.ready_slot_meta_tiles(),
    {
        let r = self.data_source.get_slot_tiles();
        let count = r.len() as u64;
        self.outstanding_requests = self.outstanding_requests - count;
        r
    }

    pub fn fetch_slot_meta_tile(&mut self, entry_id: &EntryID, tile_id: TileID, full: bool)
        requires
            old(self).wf(),
            old(self).outstanding_requests < u64::MAX,
        ensures
            final(self).wf(),
            final(self).outstanding_requests == old(self).outstanding_requests + 1,
            final(self).data_source.inflight_infos() == old(self).data_source.inflight_infos(),
            final(self).data_source.inflight_summary_tiles() == old(self).data_source.inflight_summary_tiles(),
            final(self).data_source.inflight_slot_tiles() == old(self).data_source.inflight_slot_tiles(),
            final(self).data_source.inflight_slot_meta_tiles() == old(self).data_source.inflight_slot_meta_tiles() + 1,
            final(self).data_source.ready_infos() == old(self).data_source.ready_infos(),
            final(self).data_source.ready_summary_tiles() == old(self).data_source.ready_summary_tiles(),
            final(self).data_source.ready_slot_tiles() == old(self).data_source.ready_slot_tiles(),
            old(self).data_source.ready_slot_meta_tiles().is_prefix_of(final(self).data_source.ready_slot_meta_tiles()),
            forall|k: int|
                old(self).data_source.ready_slot_meta_tiles().len() <= k < final(self).data_source.ready_slot_meta_tiles().len() ==> (#[trigger] final(self).data_source.ready_slot_meta_tiles()[k]).entry_id@ == entry_id@ && final(self).data_source.ready_slot_meta_tiles()[k].tile_id == tile_id,
    {
        self.start_request();
        self.data_source.fetch_slot_meta_tile(entry_id, tile_id, full);
    }

    /// Drains completed slot metadata tiles and settles their requests.
    pub fn get_slot_meta_tiles(&mut self) -> (r: Vec<SlotMetaTile>)
        requires
            old(self).wf(),
        ensures
            final(self).wf(),
            r@.len() <= old(self).outstanding_requests,
            final(self).outstanding_requests == old(self).outstanding_requests - r@.len(),
            r@ == old(self).data_source.ready_slot_meta_tiles(),
            final(self).data_source.inflight_infos() == old(self).data_source.inflight_infos(),
            final(self).data_source.inflight_summary_tiles() == old(self).data_source.inflight_summary_tiles(),
            final(self).data_source.inflight_slot_tiles() == old(self).data_source.inflight_slot_tiles(),
            final(self).data_source.inflight_slot_meta_tiles() == old(self).data_source.inflight_slot_meta_tiles() - r@.len(),
            final(self).data_source.ready_infos() == old(self).data_source.ready_infos(),
            final(self).data_source.ready_summary_tiles() == old(self).data_source.ready_summary_tiles(),
            final(self).data_source.ready_slot_tiles() == old(self).data_source.ready_slot_tiles(),
            final(self).data_source.ready_slot_meta_tiles().len() == 0,
    {
        let r = self.data_source.get_slot_meta_tiles();
        let count = r.len() as u64;
        self.outstanding_requests = self.outstanding_requests - count;
        r
    }
}

} // verus!
