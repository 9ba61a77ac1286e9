//! One window per loaded trace: its entry tree, its configuration, and
//! the per-frame passes that drive fetching, draining and search.

use vstd::prelude::*;

use crate::config::{tile_set_usable, Config};
use crate::data::{DataSourceInfo, EntryID};
use crate::deferred_data::DeferredDataSource;
use crate::entry::{root_meta_inflated, root_new_result_recorded, root_prepared, root_schema_wf,
    root_scope_indexed, RootPanel};
use crate::search::cache_invalidated;
use crate::timestamp::Interval;

verus! {

/// A viewer window: the entry tree built from the trace's schema and
/// the configuration driving fetches and search for it.
pub struct Window<D: DeferredDataSource> {
    pub panel: RootPanel,
    pub index: u64,
    pub config: Config<D>,
}

impl<D: DeferredDataSource> Window<D> {
    pub open spec fn wf(&self) -> bool {
        &&& self.panel.wf()
        &&& self.config.wf()
        &&& self.config.search_state.wf()
    }

    pub fn new(data_source: D, info: DataSourceInfo, index: u64) -> (r: Self)
        requires
            root_schema_wf(info.entry_info),
            info.entry_info.panel_slots().len() <= u64::MAX,
            info.field_schema.wf(),
            info.field_schema.names_view().len() < u64::MAX,
            tile_set_usable(info.tile_set),
            data_source.inflight_infos() == 0,
            data_source.inflight_summary_tiles() == 0,
            data_source.inflight_slot_tiles() == 0,
            data_source.inflight_slot_meta_tiles() == 0,
        ensures
            r.wf(),
            r.index == index,
            r.config.data_source.outstanding_requests == 0,
            r.panel.nodes@.len() == info.entry_info.panel_slots().len(),
    {
        proof {
            assert forall|i: int, j: int|
                0 <= i < info.entry_info.panel_slots().len() && 0 <= j < info.entry_info.panel_slots()[i].panel_slots().len() implies (
            #[trigger] info.entry_info.panel_slots()[i].panel_slots()[j]).is_panel() by {
                assert(crate::entry::node_schema_wf(info.entry_info.panel_slots()[i]));
            }
            assert(info.entry_info.two_panel_levels());
        }
        let panel = RootPanel::new(&info.entry_info, EntryID::root());
        let config = Config::new(data_source, info);
        Window { panel, index, config }
    }

    /// Drains every completed summary tile and writes each into the
    /// summary it echoes, in delivery order; stale results are
    /// silently discarded either way, with their requests settled.
    pub fn drain_summary_tiles(&mut self)
        requires
            old(self).wf(),
        ensures
            final(self).wf(),
            final(self).index == old(self).index,
            final(self).config.data_source.outstanding_requests
                == old(self).config.data_source.outstanding_requests - old(self).config.data_source.data_source.ready_summary_tiles().len(),
            final(self).config.data_source.data_source.ready_summary_tiles().len() == 0,
            final(self).config.data_source.data_source.ready_slot_tiles() == old(self).config.data_source.data_source.ready_slot_tiles(),
            final(self).config.data_source.data_source.ready_slot_meta_tiles() == old(self).config.data_source.data_source.ready_slot_meta_tiles(),
            final(self).config.search_state == old(self).config.search_state,
            ({
                let all = old(self).config.data_source.data_source.ready_summary_tiles();
                forall|k: int|
                    0 <= k < all.len() && crate::entry::summary_path_valid(
                        old(self).panel,
                        (#[trigger] all[k]).entry_id@,
                    ) && !(exists|k2: int|
                        k < k2 < all.len() && crate::entry::summary_paths_alias(
                            (#[trigger] all[k2]).entry_id@,
                            all[k].entry_id@,
                        ) && all[k2].tile_id == all[k].tile_id) ==> ({
                        let sm = crate::entry::summary_at(final(self).panel, all[k].entry_id@);
                        forall|b: int|
                            0 <= b < sm.tiles@.len() && (#[trigger] sm.tiles@[b]).0
                                == all[k].tile_id ==> sm.tiles@[b] == (
                            all[k].tile_id,
                            Some(all[k].data),
                        )
                    })
            }),
    {
        let tiles = self.config.data_source.get_summary_tiles();
        self.panel.apply_summary_tiles(tiles);
    }

    /// Drains every completed slot tile and writes each into the slot
    /// it echoes, in delivery order; stale results are silently
    /// discarded.
    pub fn drain_slot_tiles(&mut self)
        requires
            old(self).wf(),
        ensures
            final(self).wf(),
            final(self).index == old(self).index,
            final(self).config.data_source.outstanding_requests
                == old(self).config.data_source.outstanding_requests - old(self).config.data_source.data_source.ready_slot_tiles().len(),
            final(self).config.data_source.data_source.ready_slot_tiles().len() == 0,
            final(self).config.data_source.data_source.ready_summary_tiles() == old(self).config.data_source.data_source.ready_summary_tiles(),
            final(self).config.data_source.data_source.ready_slot_meta_tiles() == old(self).config.data_source.data_source.ready_slot_meta_tiles(),
            final(self).config.search_state == old(self).config.search_state,
            ({
                let all = old(self).config.data_source.data_source.ready_slot_tiles();
                forall|k: int|
                    0 <= k < all.len() && crate::entry::slot_path_valid(
                        old(self).panel,
                        (#[trigger] all[k]).entry_id@,
                    ) && !(exists|k2: int|
                        k < k2 < all.len() && (#[trigger] all[k2]).entry_id@ == all[k].entry_id@
                            && all[k2].tile_id == all[k].tile_id) ==> ({
                        let s = crate::entry::slot_at(final(self).panel, all[k].entry_id@);
                        forall|b: int|
                            0 <= b < s.tiles@.len() && (#[trigger] s.tiles@[b]).0
                                == all[k].tile_id ==> s.tiles@[b] == (
                            all[k].tile_id,
                            Some(all[k].data),
                        )
                    })
            }),
    {
        let tiles = self.config.data_source.get_slot_tiles();
        self.panel.apply_slot_tiles(tiles);
    }

    /// Drains every completed metadata tile and writes each into the
    /// slot it echoes, in delivery order; stale results are silently
    /// discarded.
    pub fn drain_slot_meta_tiles(&mut self)
        requires
            old(self).wf(),
        ensures
            final(self).wf(),
            final(self).index == old(self).index,
            final(self).config.data_source.outstanding_requests
                == old(self).config.data_source.outstanding_requests - old(self).config.data_source.data_source.ready_slot_meta_tiles().len(),
            final(self).config.data_source.data_source.ready_slot_meta_tiles().len() == 0,
            final(self).config.data_source.data_source.ready_summary_tiles() == old(self).config.data_source.data_source.ready_summary_tiles(),
            final(self).config.data_source.data_source.ready_slot_tiles() == old(self).config.data_source.data_source.ready_slot_tiles(),
            final(self).config.search_state == old(self).config.search_state,
            ({
                let all = old(self).config.data_source.data_source.ready_slot_meta_tiles();
                forall|k: int|
                    0 <= k < all.len() && crate::entry::slot_path_valid(
                        old(self).panel,
                        (#[trigger] all[k]).entry_id@,
                    ) && !(exists|k2: int|
                        k < k2 < all.len() && (#[trigger] all[k2]).entry_id@ == all[k].entry_id@
                            && all[k2].tile_id == all[k].tile_id) ==> ({
                        let s = crate::entry::slot_at(final(self).panel, all[k].entry_id@);
                        forall|b: int|
                            0 <= b < s.tile_metas@.len() && (#[trigger] s.tile_metas@[b]).0
                                == all[k].tile_id ==> s.tile_metas@[b] == (
                            all[k].tile_id,
                            Some(all[k].data),
                        )
                    })
            }),
    {
        let tiles = self.config.data_source.get_slot_meta_tiles();
        self.panel.apply_slot_meta_tiles(tiles);
    }

    /// One polling pass: drains every kind of completed result into the
    /// tree and settles each drained request, so the counter falls by
    /// exactly the number of completed results.
    pub fn poll(&mut self)
        requires
            old(self).wf(),
        ensures
            final(self).wf(),
            final(self).index == old(self).index,
            final(self).config.data_source.outstanding_requests
                == old(self).config.data_source.outstanding_requests - old(self).config.data_source.data_source.ready_summary_tiles().len()
                - old(self).config.data_source.data_source.ready_slot_tiles().len() - old(self).config.data_source.data_source.ready_slot_meta_tiles().len(),
            final(self).config.data_source.data_source.ready_summary_tiles().len() == 0,
            final(self).config.data_source.data_source.ready_slot_tiles().len() == 0,
            final(self).config.data_source.data_source.ready_slot_meta_tiles().len() == 0,
            final(self).config.search_state == old(self).config.search_state,
    {
        self.drain_summary_tiles();
        self.drain_slot_tiles();
        self.drain_slot_meta_tiles();
    }

    /// Marks the addressed slot and the panels above it as expanded.
    pub fn expand_slot(&mut self, entry_id: &EntryID) -> (applied: bool)
        requires
            old(self).wf(),
        ensures
            final(self).wf(),
            final(self).index == old(self).index,
    {
        self.panel.expand_slot(entry_id)
    }

    /// Expands or collapses every kind panel with the given label
    /// across the whole tree.
    pub fn set_kinds_expanded(&mut self, label: &String, expanded: bool)
        requires
            old(self).wf(),
        ensures
            final(self).wf(),
            final(self).index == old(self).index,
    {
        self.panel.set_kinds_expanded(label, expanded);
    }

    /// The per-frame render preparation: clears caches invalidated by a
    /// view change and requests the tiles the view needs, for every
    /// visible part of the tree.
    pub fn prepare(&mut self, view_interval: Interval)
        requires
            old(self).wf(),
            view_interval.wf(),
        ensures
            final(self).wf(),
            final(self).index == old(self).index,
            root_prepared(
                old(self).panel,
                final(self).panel,
                old(self).config.tile_set,
                view_interval,
                old(self).config.min_node,
                old(self).config.max_node,
                old(self).config.kind_filter.deep_view(),
                final(self).config.data_source.outstanding_requests < u64::MAX,
            ),
            old(self).config.data_source.outstanding_requests <= final(self).config.data_source.outstanding_requests,
    {
        let min_node = self.config.min_node;
        let max_node = self.config.max_node;
        let kind_filter = clone_strings(&self.config.kind_filter);
        self.panel.prepare_all(&mut self.config, view_interval, min_node, max_node, &kind_filter);
    }

    /// The per-frame search pass: re-baselines the cache if the query
    /// or scope moved, then — unless the query is empty — requests the
    /// metadata the search needs and indexes whatever has arrived.
    /// While the query and scope stand still, the result set only
    /// grows across passes.
    pub fn search(&mut self, view_interval: Interval)
        requires
            old(self).wf(),
            view_interval.wf(),
        ensures
            final(self).wf(),
            final(self).index == old(self).index,
            !cache_invalidated(old(self).config.search_state, view_interval) ==> old(self).config.search_state.result_set_view().subset_of(
                final(self).config.search_state.result_set_view(),
            ),
            final(self).config.search_state.query == old(self).config.search_state.query,
            final(self).config.search_state.last_query@ == old(self).config.search_state.query@,
            final(self).config.search_state.last_search_field == old(self).config.search_state.search_field,
            final(self).config.search_state.last_view_interval == Some(view_interval),
            old(self).config.search_state.query@.len() > 0 ==> root_meta_inflated(
                old(self).panel,
                final(self).panel,
                old(self).config.tile_set,
                view_interval,
                old(self).config.min_node,
                old(self).config.max_node,
                old(self).config.kind_filter.deep_view(),
                old(self).config.search_state.include_collapsed_entries,
                final(self).config.data_source.outstanding_requests < u64::MAX,
            ),
            old(self).config.search_state.query@.len() > 0 ==> root_scope_indexed(
                final(self).config.search_state,
                (if cache_invalidated(old(self).config.search_state, view_interval) {
                    Seq::empty()
                } else {
                    old(self).config.search_state.cache_view()
                }),
                final(self).panel,
                old(self).config.min_node,
                old(self).config.max_node,
                old(self).config.kind_filter.deep_view(),
                old(self).config.search_state.include_collapsed_entries,
                old(self).config.search_state.search_field,
                old(self).config.search_state.title_field,
                old(self).config.search_state.query@,
            ),
            forall|uid: u64|
                final(self).config.search_state.result_set_view().contains(uid) && !(if cache_invalidated(
                    old(self).config.search_state,
                    view_interval,
                ) {
                    Set::<u64>::empty()
                } else {
                    old(self).config.search_state.result_set_view()
                }).contains(uid) ==> root_new_result_recorded(
                    final(self).config.search_state,
                    final(self).panel,
                    uid,
                    old(self).config.search_state.search_field,
                    old(self).config.search_state.title_field,
                    old(self).config.search_state.query@,
                ),
            old(self).config.search_state.query@.len() == 0 ==> final(self).panel == old(self).panel && final(self).config.data_source == old(self).config.data_source && final(self).config.data_source.outstanding_requests == old(self).config.data_source.outstanding_requests && final(self).config.tile_set == old(self).config.tile_set && final(self).config.min_node == old(self).config.min_node && final(self).config.max_node == old(self).config.max_node && final(self).config.kind_filter
                == old(self).config.kind_filter && final(self).config.resolutions == old(self).config.resolutions && final(self).config.last_request_interval == old(self).config.last_request_interval && final(self).config.request_tile_cache == old(self).config.request_tile_cache,
            old(self).config.search_state.query@.len() == 0 && cache_invalidated(
                old(self).config.search_state,
                view_interval,
            ) ==> final(self).config.search_state.result_set_view() == Set::<u64>::empty()
                && final(self).config.search_state.cache_view()
                == Seq::<crate::search::EntryCache>::empty() && final(self).config.search_state.tree_view() == Seq::<crate::search::EntryTreeNode>::empty(),
            old(self).config.search_state.query@.len() == 0 && !cache_invalidated(
                old(self).config.search_state,
                view_interval,
            ) ==> final(self).config.search_state.result_set_view() == old(self).config.search_state.result_set_view() && final(self).config.search_state.cache_view()
                == old(self).config.search_state.cache_view() && final(self).config.search_state.tree_view() == old(self).config.search_state.tree_view(),
    {
        self.config.search_state.ensure_valid_cache(view_interval);

        // An empty query searches nothing; invalidation above already
        // dropped any leftover results.
        if self.config.search_state.query.as_str().unicode_len() == 0 {
            return ;
        }
        let force = self.config.search_state.include_collapsed_entries;
        let min_node = self.config.min_node;
        let max_node = self.config.max_node;
        let kind_filter = clone_strings(&self.config.kind_filter);

        // Request the metadata tiles the search will need; results
        // stream in over later frames.
        self.panel.inflate_meta_all(
            &mut self.config,
            view_interval,
            min_node,
            max_node,
            &kind_filter,
            force,
        );

        // Index whatever metadata has arrived; already-indexed tiles
        // are skipped.
        self.panel.search_all(
            &mut self.config.search_state,
            min_node,
            max_node,
            &kind_filter,
            force,
        );
    }
}

/// A fresh vector holding the same strings.
fn clone_strings(v: &Vec<String>) -> (r: Vec<String>)
    ensures
        r.deep_view() == v.deep_view(),
{
    let mut r: Vec<String> = Vec::new();
    let n = v.len();
    let mut i: usize = 0;
    while i < n
        invariant
            n == v@.len(),
            0 <= i <= n,
            r@.len() == i,
            forall|j: int| 0 <= j < i ==> (#[trigger] r@[j])@ == v@[j]@,
        decreases n - i,
    {
        r.push(v[i].clone());
        i += 1;
    }
    proof {
        assert(r.deep_view() =~= v.deep_view());
    }
    r
}

} // verus!
