//! Per-window configuration and the level-of-detail tile resolver.
//!
//! The resolver maps a requested time window to the tiles worth
//! fetching: it picks the level of detail whose tile duration best
//! matches the window (the first level minimizing the coarseness
//! ratio), keeps the tiles of that level overlapping the window, and
//! memoizes the answer against the immediately preceding request.

use vstd::prelude::*;

use crate::data::{DataSourceInfo, FieldSchema, TileID, TileSet};
use crate::deferred_data::{CountingDeferredDataSource, DeferredDataSource};
use crate::search::SearchState;
use crate::timestamp::Interval;

verus! {

/// The representative tile duration of each level: the duration of the
/// level's first tile.
pub open spec fn tile_set_durations(ts: TileSet) -> Seq<int> {
    Seq::new(ts.tiles@.len(), |l: int| ts.tiles@[l]@[0].0.duration())
}

/// How far a tile duration is from the requested duration: the ratio of
/// the larger to the smaller, rounded down. Small is better; `1` means
/// the level matches the window.
pub open spec fn coarseness_ratio(d: int, req: int) -> int {
    if d < req {
        req / d
    } else {
        d / req
    }
}

/// Whether the level with tile duration `da` beats the one with `db`
/// for a request of duration `req`. A comparison touching a zero or
/// negative duration is a tie, and a tie never replaces the earlier
/// candidate.
pub open spec fn ratio_better(da: int, db: int, req: int) -> bool {
    req > 0 && da > 0 && db > 0 && coarseness_ratio(da, req) < coarseness_ratio(db, req)
}

/// The level a left-to-right scan settles on: each level replaces the
/// best so far only if its ratio is strictly smaller, so the first of
/// equally good levels wins.
pub open spec fn best_level(durations: Seq<int>, req: int) -> int
    decreases durations.len(),
{
    if durations.len() <= 1 {
        0
    } else {
        let prev = best_level(durations.drop_last(), req);
        if ratio_better(durations.last(), durations[prev], req) {
            durations.len() - 1
        } else {
            prev
        }
    }
}

/// The tiles of `level` overlapping `req`, in the order the level lists
/// them.
pub open spec fn overlapping_tiles(level: Seq<TileID>, req: Interval) -> Seq<TileID>
    decreases level.len(),
{
    if level.len() == 0 {
        Seq::empty()
    } else {
        let rest = overlapping_tiles(level.drop_last(), req);
        if req.spec_overlaps(level.last().0) {
            rest.push(level.last())
        } else {
            rest
        }
    }
}

/// The total number of tiles across all levels.
pub open spec fn tile_count(levels: Seq<Vec<TileID>>) -> int
    decreases levels.len(),
{
    if levels.len() == 0 {
        0
    } else {
        tile_count(levels.drop_last()) + levels.last()@.len()
    }
}

proof fn lemma_overlapping_len(level: Seq<TileID>, req: Interval)
    ensures
        overlapping_tiles(level, req).len() <= level.len(),
    decreases level.len(),
{
    if level.len() > 0 {
        lemma_overlapping_len(level.drop_last(), req);
    }
}

proof fn lemma_level_le_count(levels: Seq<Vec<TileID>>, l: int)
    requires
        0 <= l < levels.len(),
    ensures
        levels[l]@.len() <= tile_count(levels),
        tile_count(levels) >= 0,
    decreases levels.len(),
{
    lemma_tile_count_nonneg(levels);
    if l == levels.len() - 1 {
        lemma_tile_count_nonneg(levels.drop_last());
    } else {
        lemma_level_le_count(levels.drop_last(), l);
        assert(levels.drop_last()[l] == levels[l]);
    }
}

proof fn lemma_tile_count_nonneg(levels: Seq<Vec<TileID>>)
    ensures
        tile_count(levels) >= 0,
    decreases levels.len(),
{
    if levels.len() > 0 {
        lemma_tile_count_nonneg(levels.drop_last());
    }
}

/// A resolved request never asks for more than every tile of the set,
/// plus the one ad-hoc tile of a dynamic trace.
pub proof fn lemma_resolved_len_bound(ts: TileSet, req: Interval)
    ensures
        resolved_tiles(ts, req).len() <= tile_count(ts.tiles@) + 1,
{
    lemma_tile_count_nonneg(ts.tiles@);
    if ts.tiles@.len() > 0 {
        let l = best_level(tile_set_durations(ts), req.duration());
        lemma_best_level_in_range(tile_set_durations(ts), req.duration());
        lemma_overlapping_len(ts.tiles@[l]@, req);
        lemma_level_le_count(ts.tiles@, l);
    }
}

/// What a request for `req` resolves to: a single ad-hoc tile covering
/// exactly the request when the trace has no precomputed levels, and
/// otherwise the overlapping tiles of the best-matching level.
pub open spec fn resolved_tiles(ts: TileSet, req: Interval) -> Seq<TileID> {
    if ts.tiles@.len() == 0 {
        seq![TileID(req)]
    } else {
        let l = best_level(tile_set_durations(ts), req.duration());
        overlapping_tiles(ts.tiles@[l]@, req)
    }
}

/// The chosen level always exists.
pub proof fn lemma_best_level_in_range(durations: Seq<int>, req: int)
    requires
        durations.len() > 0,
    ensures
        0 <= best_level(durations, req) < durations.len(),
    decreases durations.len(),
{
    if durations.len() > 1 {
        lemma_best_level_in_range(durations.drop_last(), req);
    }
}

/// For a positive request over levels of positive tile duration, the
/// chosen level minimizes the coarseness ratio, and every earlier level
/// is strictly worse: the first minimum wins.
pub proof fn lemma_best_level_minimal(durations: Seq<int>, req: int)
    requires
        durations.len() > 0,
        req > 0,
        forall|i: int| 0 <= i < durations.len() ==> durations[i] > 0,
    ensures
        0 <= best_level(durations, req) < durations.len(),
        forall|i: int|
            0 <= i < durations.len() ==> coarseness_ratio(
                durations[best_level(durations, req)],
                req,
            ) <= coarseness_ratio(#[trigger] durations[i], req),
        forall|i: int|
            0 <= i < best_level(durations, req) ==> coarseness_ratio(#[trigger] durations[i], req)
                > coarseness_ratio(durations[best_level(durations, req)], req),
    decreases durations.len(),
{
    lemma_best_level_in_range(durations, req);
    if durations.len() > 1 {
        let sub = durations.drop_last();
        lemma_best_level_minimal(sub, req);
        let prev = best_level(sub, req);
        assert(forall|i: int| 0 <= i < sub.len() ==> sub[i] == durations[i]);
        assert(durations.last() == durations[durations.len() - 1]);
    }
}

/// `names` with every occurrence of `name` removed, order kept.
pub open spec fn remove_name(names: Seq<Seq<char>>, name: Seq<char>) -> Seq<Seq<char>>
    decreases names.len(),
{
    if names.len() == 0 {
        Seq::empty()
    } else {
        let rest = remove_name(names.drop_last(), name);
        if names.last() == name {
            rest
        } else {
            rest.push(names.last())
        }
    }
}

/// A window's configuration: the trace's schema and time bounds, node
/// and kind filters, the data source with its request accounting, the
/// search engine state, and the resolver's memo.
pub struct Config<D: DeferredDataSource> {
    pub field_schema: FieldSchema,
    pub min_node: u64,
    pub max_node: u64,
    pub kinds: Vec<String>,
    pub kind_filter: Vec<String>,
    pub interval: Interval,
    pub tile_set: TileSet,
    pub data_source: CountingDeferredDataSource<D>,
    pub search_state: SearchState,
    pub last_request_interval: Option<Interval>,
    pub request_tile_cache: Vec<TileID>,
    /// How many times the selection logic actually ran; a memo hit
    /// leaves it unchanged.
    pub resolutions: u64,
}

/// Every level of a usable tile set holds at least one tile, and each
/// level's first tile spans a well-formed range.
pub open spec fn tile_set_usable(ts: TileSet) -> bool {
    forall|l: int|
        0 <= l < ts.tiles@.len() ==> (#[trigger] ts.tiles@[l])@.len() > 0 && ts.tiles@[l]@[0].0.wf()
}

impl<D: DeferredDataSource> Config<D> {
    /// Every level of the tile set holds at least one tile, and each
    /// level's first tile spans a well-formed range.
    pub open spec fn tile_set_wf(&self) -> bool {
        tile_set_usable(self.tile_set)
    }

    /// The configuration invariant: the tile set is usable, the memo
    /// holds exactly what the remembered request resolves to, and the
    /// request counter is exact.
    pub open spec fn wf(&self) -> bool {
        &&& self.tile_set_wf()
        &&& match self.last_request_interval {
            Some(iv) => self.request_tile_cache@ == resolved_tiles(self.tile_set, iv),
            None => self.request_tile_cache@.len() == 0,
        }
        &&& self.data_source.wf()
    }

    pub fn new(data_source: D, info: DataSourceInfo) -> (r: Self)
        requires
            info.entry_info.two_panel_levels(),
            info.entry_info.panel_slots().len() <= u64::MAX,
            info.field_schema.wf(),
            info.field_schema.names_view().len() < u64::MAX,
            tile_set_usable(info.tile_set),
            data_source.inflight_infos() == 0,
            data_source.inflight_summary_tiles() == 0,
            data_source.inflight_slot_tiles() == 0,
            data_source.inflight_slot_meta_tiles() == 0,
        ensures
            r.wf(),
            r.min_node == 0,
            r.max_node == info.entry_info.panel_slots().len(),
            r.kinds.deep_view() == crate::data::dedup_first(
                crate::data::grandchild_names(info.entry_info.panel_slots()),
            ),
            r.kind_filter@.len() == 0,
            r.interval == info.interval,
            r.tile_set == info.tile_set,
            r.data_source.wf(),
            r.data_source.outstanding_requests == 0,
            r.search_state.wf(),
            r.search_state.query@ == Seq::<char>::empty(),
            r.search_state.result_set_view() == Set::<u64>::empty(),
            r.last_request_interval is None,
            r.request_tile_cache@.len() == 0,
            r.resolutions == 0,
    {
        proof {
            lemma_tile_count_nonneg(info.tile_set.tiles@);
        }
        let max_node = info.entry_info.nodes();
        let kinds = info.entry_info.kinds();
        let mut field_schema = info.field_schema;
        let title_id = field_schema.insert("Title".to_owned(), true);
        let search_state = SearchState::new(title_id);
        Self {
            field_schema,
            min_node: 0,
            max_node,
            kinds,
            kind_filter: Vec::new(),
            interval: info.interval,
            tile_set: info.tile_set,
            data_source: CountingDeferredDataSource::new(data_source),
            search_state,
            last_request_interval: None,
            request_tile_cache: Vec::new(),
            resolutions: 0,
        }
    }

    /// Turns a kind on or off in the kind filter. An enabled kind is
    /// listed once; disabling removes it entirely. An empty filter
    /// shows every kind.
    pub fn set_kind_enabled(&mut self, kind: &String, enabled: bool)
        ensures
            final(self).kind_filter.deep_view() == if enabled {
                if old(self).kind_filter.deep_view().contains(kind@) {
                    old(self).kind_filter.deep_view()
                } else {
                    old(self).kind_filter.deep_view().push(kind@)
                }
            } else {
                remove_name(old(self).kind_filter.deep_view(), kind@)
            },
            final(self).field_schema == old(self).field_schema,
            final(self).min_node == old(self).min_node,
            final(self).max_node == old(self).max_node,
            final(self).kinds == old(self).kinds,
            final(self).interval == old(self).interval,
            final(self).tile_set == old(self).tile_set,
            final(self).data_source == old(self).data_source,
            final(self).search_state == old(self).search_state,
            final(self).last_request_interval == old(self).last_request_interval,
            final(self).request_tile_cache == old(self).request_tile_cache,
            final(self).resolutions == old(self).resolutions,
    {
        if enabled {
            if !crate::data::vec_contains_string(&self.kind_filter, kind) {
                self.kind_filter.push(kind.clone());
                proof {
                    assert(self.kind_filter.deep_view() =~= old(
                        self,
                    ).kind_filter.deep_view().push(kind@));
                }
            }
        } else {
            let mut keep: Vec<String> = Vec::new();
            let n = self.kind_filter.len();
            let mut i: usize = 0;
            while i < n
                invariant
                    n == self.kind_filter@.len(),
                    0 <= i <= n,
                    self.kind_filter == old(self).kind_filter,
                    keep.deep_view() == remove_name(
                        self.kind_filter.deep_view().take(i as int),
                        kind@,
                    ),
                decreases n - i,
            {
                proof {
                    let prefix = self.kind_filter.deep_view().take(i as int + 1);
                    assert(prefix.drop_last() =~= self.kind_filter.deep_view().take(i as int));
                    assert(prefix.last() == self.kind_filter.deep_view()[i as int]);
                }
                if !(self.kind_filter[i] == *kind) {
                    let ghost keep0 = keep.deep_view();
                    keep.push(self.kind_filter[i].clone());
                    proof {
                        assert(keep.deep_view() =~= keep0.push(
                            self.kind_filter.deep_view()[i as int],
                        ));
                    }
                }
                i += 1;
            }
            proof {
                assert(self.kind_filter.deep_view().take(n as int) =~= self.kind_filter.deep_view());
            }
            self.kind_filter = keep;
        }
    }

    /// Clamps and stores the visible node range: the first node never
    /// exceeds the last.
    pub fn set_node_range(&mut self, min_node: u64, max_node: u64)
        ensures
            final(self).min_node == if min_node <= max_node {
                min_node
            } else {
                max_node
            },
            final(self).max_node == max_node,
            final(self).kind_filter == old(self).kind_filter,
            final(self).search_state == old(self).search_state,
            final(self).data_source == old(self).data_source,
            final(self).tile_set == old(self).tile_set,
    {
        self.max_node = max_node;
        self.min_node = if min_node <= max_node {
            min_node
        } else {
            max_node
        };
    }

    /// Resolves a requested window to the tiles worth fetching. A
    /// request equal to the immediately preceding one is answered from
    /// the memo without running the selection logic again.
    pub fn request_tiles(&mut self, request_interval: Interval) -> (r: Vec<TileID>)
        requires
            old(self).wf(),
            request_interval.wf(),
        ensures
            final(self).wf(),
            r@ == resolved_tiles(old(self).tile_set, request_interval),
            r@.len() <= tile_count(old(self).tile_set.tiles@) + 1,
            final(self).last_request_interval == Some(request_interval),
            final(self).request_tile_cache@ == r@,
            old(self).last_request_interval == Some(request_interval) ==> *final(self) == *old(
                self,
            ) && final(self).resolutions == old(self).resolutions,
            old(self).last_request_interval != Some(request_interval) ==> final(self).resolutions
                == (if old(self).resolutions < u64::MAX {
                old(self).resolutions + 1
            } else {
                old(self).resolutions as int
            }),
            final(self).field_schema == old(self).field_schema,
            final(self).min_node == old(self).min_node,
            final(self).max_node == old(self).max_node,
            final(self).kinds == old(self).kinds,
            final(self).kind_filter == old(self).kind_filter,
            final(self).interval == old(self).interval,
            final(self).tile_set == old(self).tile_set,
            final(self).data_source == old(self).data_source,
            final(self).search_state == old(self).search_state,
    {
        let hit = match self.last_request_interval {
            Some(last) => last == request_interval,
            None => false,
        };
        if hit {
            proof {
                lemma_resolved_len_bound(self.tile_set, request_interval);
            }
            return clone_tiles(&self.request_tile_cache);
        }
        if self.resolutions < u64::MAX {
            self.resolutions = self.resolutions + 1;
        }
        self.last_request_interval = Some(request_interval);

        if self.tile_set.tiles.len() == 0 {
            let mut cache: Vec<TileID> = Vec::new();
            cache.push(TileID(request_interval));
            proof {
                assert(cache@ =~= seq![TileID(request_interval)]);
                lemma_resolved_len_bound(self.tile_set, request_interval);
            }
            self.request_tile_cache = clone_tiles(&cache);
            return cache;
        }

        // Estimate the best zoom level: minimize the ratio of tile
        // duration to request duration, first minimum winning.
        let ghost durations = tile_set_durations(self.tile_set);
        let request_duration = request_interval.duration_ns();
        let n = self.tile_set.tiles.len();
        let mut best: usize = 0;
        let mut l: usize = 1;
        proof {
            assert(durations.take(1).drop_last() =~= durations.take(0));
            assert(best_level(durations.take(1), request_duration as int) == 0);
        }
        while l < n
            invariant
                self.tile_set_wf(),
                n == self.tile_set.tiles@.len(),
                durations == tile_set_durations(self.tile_set),
                request_duration == request_interval.duration(),
                1 <= l <= n,
                0 <= best < l,
                best == best_level(durations.take(l as int), request_duration as int),
            decreases n - l,
        {
            proof {
                assert(durations.take(l as int + 1).drop_last() =~= durations.take(l as int));
                assert(durations.take(l as int + 1).last() == durations[l as int]);
                lemma_best_level_in_range(durations.take(l as int), request_duration as int);
            }
            let dl = self.tile_set.tiles[l][0].0.duration_ns();
            let db = self.tile_set.tiles[best][0].0.duration_ns();
            if ratio_less(dl, db, request_duration) {
                best = l;
            }
            l += 1;
        }
        proof {
            assert(durations.take(n as int) =~= durations);
        }

        // Keep only the chosen level's tiles that overlap the request.
        let level = &self.tile_set.tiles[best];
        let m = level.len();
        let mut cache: Vec<TileID> = Vec::new();
        let mut t: usize = 0;
        while t < m
            invariant
                m == level@.len(),
                0 <= t <= m,
                cache@ == overlapping_tiles(level@.take(t as int), request_interval),
            decreases m - t,
        {
            proof {
                assert(level@.take(t as int + 1).drop_last() =~= level@.take(t as int));
                assert(level@.take(t as int + 1).last() == level@[t as int]);
            }
            if request_interval.overlaps(level[t].0) {
                cache.push(level[t]);
            }
            t += 1;
        }
        proof {
            assert(level@.take(m as int) =~= level@);
            lemma_resolved_len_bound(self.tile_set, request_interval);
        }
        self.request_tile_cache = clone_tiles(&cache);
        cache
    }
}

/// Whether the level with tile duration `da` strictly beats the one
/// with `db` for a request of duration `req`; any comparison touching a
/// non-positive duration is a tie.
fn ratio_less(da: i64, db: i64, req: i64) -> (r: bool)
    ensures
        r == ratio_better(da as int, db as int, req as int),
{
    if req <= 0 || da <= 0 || db <= 0 {
        return false;
    }
    let ra = if da < req {
        req / da
    } else {
        da / req
    };
    let rb = if db < req {
        req / db
    } else {
        db / req
    };
    ra < rb
}

/// A fresh vector with the same tiles.
fn clone_tiles(v: &Vec<TileID>) -> (r: Vec<TileID>)
    ensures
        r@ == v@,
{
    let mut r: Vec<TileID> = Vec::new();
    let n = v.len();
    let mut i: usize = 0;
    while i < n
        invariant
            n == v@.len(),
            0 <= i <= n,
            r@ =~= v@.take(i as int),
        decreases n - i,
    {
        r.push(v[i]);
        i += 1;
    }
    proof {
        assert(r@ =~= v@);
    }
    r
}

} // verus!
