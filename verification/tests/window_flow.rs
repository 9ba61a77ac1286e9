//! End-to-end flow: build a window from a schema, request tiles for a
//! view, deliver results out of order, and search the arrived metadata.

use prof_viewer::data::{
    Color, DataSourceInfo, EntryID, EntryInfo, FieldSchema, ItemMeta, ItemUID, SlotMetaTile,
    SlotMetaTileData, SlotTile, SlotTileData, SummaryTile, SummaryTileData, TileID, TileSet,
    UtilPoint,
};
use prof_viewer::deferred_data::QueueDataSource;
use prof_viewer::timestamp::{Interval, Timestamp};
use prof_viewer::window::Window;

fn ival(start: i64, stop: i64) -> Interval {
    Interval::new(Timestamp(start), Timestamp(stop))
}

fn slot(name: &str, rows: u64) -> EntryInfo {
    EntryInfo::Slot {
        short_name: name.to_string(),
        long_name: format!("long {name}"),
        max_rows: rows,
    }
}

fn schema() -> EntryInfo {
    let kind = EntryInfo::Panel {
        short_name: "cpu".to_string(),
        long_name: "cpus".to_string(),
        summary: Some(Box::new(EntryInfo::Summary {
            color: Color { r: 9, g: 9, b: 9, a: 255 },
        })),
        slots: vec![slot("cpu0", 2), slot("cpu1", 2)],
    };
    let node = EntryInfo::Panel {
        short_name: "n0".to_string(),
        long_name: "node 0".to_string(),
        summary: None,
        slots: vec![kind],
    };
    EntryInfo::Panel {
        short_name: "root".to_string(),
        long_name: "root".to_string(),
        summary: None,
        slots: vec![node],
    }
}

fn info() -> DataSourceInfo {
    DataSourceInfo {
        entry_info: schema(),
        interval: ival(0, 1_000),
        tile_set: TileSet {
            tiles: vec![vec![TileID(ival(0, 500)), TileID(ival(500, 1_000))]],
        },
        field_schema: FieldSchema::new(),
    }
}

fn meta_tile(entry_id: &EntryID, tile_id: TileID, titles: &[(u64, &str)]) -> SlotMetaTile {
    let row: Vec<ItemMeta> = titles
        .iter()
        .map(|(uid, title)| ItemMeta {
            item_uid: ItemUID(*uid),
            original_interval: ival(0, 10),
            title: title.to_string(),
            fields: Vec::new(),
        })
        .collect();
    SlotMetaTile {
        entry_id: entry_id.clone(),
        tile_id,
        data: SlotMetaTileData { items: vec![row] },
    }
}

#[test]
fn prepare_requests_tiles_and_poll_applies_them() {
    let mut window = Window::new(QueueDataSource::new(), info(), 0);
    let view = ival(0, 1_000);

    // Nothing is expanded past the kind level by default; expand one
    // slot so preparing the view requests its tiles.
    let slot_id = EntryID::root().child(0).child(0).child(0);
    assert!(window.expand_slot(&slot_id));
    assert_eq!(window.config.data_source.outstanding_requests(), 0);

    window.prepare(view);
    // Both tiles of the only level overlap the view: two slot tile
    // requests, plus the kind's summary tiles.
    let outstanding = window.config.data_source.outstanding_requests();
    assert_eq!(outstanding, 4);

    // The transport answers one slot tile; the other stays in flight.
    let tile_id = TileID(ival(0, 500));
    let tile = SlotTile {
        entry_id: slot_id.clone(),
        tile_id,
        data: SlotTileData { items: vec![Vec::new(), Vec::new()] },
    };
    assert!(window.config.data_source.data_source.deliver_slot_tile(tile));
    window.poll();
    assert_eq!(window.config.data_source.outstanding_requests(), outstanding - 1);

    // The payload landed in the slot's cache.
    let slot = &window.panel.nodes[0].kinds[0].slots[0];
    let arrived = slot
        .tiles
        .iter()
        .filter(|(_, data)| data.is_some())
        .count();
    assert_eq!(arrived, 1);
}

#[test]
fn stale_results_are_silently_discarded() {
    let mut window = Window::new(QueueDataSource::new(), info(), 0);

    // A result for an entry that does not exist in this tree — say,
    // one left over from before a filter change — is dropped without
    // touching anything.
    let stale_entry = EntryID::root().child(5).child(5).child(5);
    let tile = SlotTile {
        entry_id: stale_entry,
        tile_id: TileID(ival(0, 500)),
        data: SlotTileData { items: Vec::new() },
    };
    assert!(!window.panel.apply_slot_tile(tile));
    let slot = &window.panel.nodes[0].kinds[0].slots[0];
    assert!(slot.tiles.is_empty());

    // So is one whose path is a summary, not a slot.
    let summary_entry = EntryID::root().child(0).summary();
    let tile = SlotTile {
        entry_id: summary_entry,
        tile_id: TileID(ival(0, 500)),
        data: SlotTileData { items: Vec::new() },
    };
    assert!(!window.panel.apply_slot_tile(tile));
}

#[test]
fn search_indexes_arrived_metadata_across_frames() {
    let mut window = Window::new(QueueDataSource::new(), info(), 0);
    let view = ival(0, 1_000);
    let slot0 = EntryID::root().child(0).child(0).child(0);
    let slot1 = EntryID::root().child(0).child(0).child(1);
    assert!(window.expand_slot(&slot0));

    window.config.search_state.query = "copy".to_string();
    // Include collapsed entries so the second slot is searched too.
    window.config.search_state.include_collapsed_entries = true;

    // Frame one: the search requests metadata; nothing has arrived.
    window.search(view);
    assert_eq!(window.config.search_state.result_count(), 0);
    assert!(window.config.data_source.outstanding_requests() > 0);

    // Metadata arrives out of order: the second slot answers first.
    let tile_a = TileID(ival(0, 500));
    let tile_b = TileID(ival(500, 1_000));
    assert!(window
        .config
        .data_source
        .data_source
        .deliver_slot_meta_tile(meta_tile(&slot1, tile_b, &[(11, "copy b")])));
    window.poll();
    window.search(view);
    assert_eq!(window.config.search_state.result_count(), 1);
    assert!(window.config.search_state.result_contains(ItemUID(11)));

    // More metadata arrives; earlier results stay.
    assert!(window
        .config
        .data_source
        .data_source
        .deliver_slot_meta_tile(meta_tile(&slot0, tile_a, &[(7, "copy a"), (8, "other")])));
    window.poll();
    window.search(view);
    assert_eq!(window.config.search_state.result_count(), 2);
    assert!(window.config.search_state.result_contains(ItemUID(11)));
    assert!(window.config.search_state.result_contains(ItemUID(7)));
    assert!(!window.config.search_state.result_contains(ItemUID(8)));

    // The display tree groups the hits by node, kind and slot.
    window.config.search_state.build_entry_tree();
    assert_eq!(window.config.search_state.entry_tree.len(), 1);
    let node = &window.config.search_state.entry_tree[0];
    assert_eq!(node.index, 0);
    assert_eq!(node.kinds[0].slots.len(), 2);

    // Changing the query drops everything.
    window.config.search_state.query = "nothing".to_string();
    window.search(view);
    assert_eq!(window.config.search_state.result_count(), 0);
}

#[test]
fn summary_tiles_land_in_the_echoing_summary() {
    let mut window = Window::new(QueueDataSource::new(), info(), 0);
    let slot_id = EntryID::root().child(0).child(0).child(0);
    assert!(window.expand_slot(&slot_id));
    window.prepare(ival(0, 1_000));

    // The kind panel's summary requested its tiles; answer one.
    let summary_id = EntryID::root().child(0).child(0).summary();
    let tile = SummaryTile {
        entry_id: summary_id,
        tile_id: TileID(ival(0, 500)),
        data: SummaryTileData {
            utilization: vec![UtilPoint { time: Timestamp(10), util_ppm: 500_000 }],
        },
    };
    assert!(window.config.data_source.data_source.deliver_summary_tile(tile));
    window.poll();
    let summary = window.panel.nodes[0].kinds[0].summary.as_ref().expect("kind has a summary");
    let arrived = summary.tiles.iter().filter(|(_, d)| d.is_some()).count();
    assert_eq!(arrived, 1);

    // A summary result for an entry with no summary is discarded.
    let stray = SummaryTile {
        entry_id: EntryID::root().child(0).summary(),
        tile_id: TileID(ival(0, 500)),
        data: SummaryTileData { utilization: Vec::new() },
    };
    assert!(!window.panel.apply_summary_tile(stray));
}

#[test]
fn expand_collapse_by_kind_label() {
    let mut window = Window::new(QueueDataSource::new(), info(), 0);
    // Kind panels start collapsed.
    assert!(!window.panel.nodes[0].kinds[0].expanded);

    window.set_kinds_expanded(&"cpu".to_string(), true);
    assert!(window.panel.nodes[0].kinds[0].expanded);

    // An unknown label changes nothing.
    window.set_kinds_expanded(&"mem".to_string(), false);
    assert!(window.panel.nodes[0].kinds[0].expanded);

    window.set_kinds_expanded(&"cpu".to_string(), false);
    assert!(!window.panel.nodes[0].kinds[0].expanded);
}

#[test]
fn view_change_clears_and_refetches_slot_tiles() {
    let mut window = Window::new(QueueDataSource::new(), info(), 0);
    let slot_id = EntryID::root().child(0).child(0).child(0);
    assert!(window.expand_slot(&slot_id));

    window.prepare(ival(0, 1_000));
    let first = window.config.data_source.outstanding_requests();
    assert!(first > 0);

    // The same view again requests nothing new.
    window.prepare(ival(0, 1_000));
    assert_eq!(window.config.data_source.outstanding_requests(), first);

    // A different view clears the caches and requests afresh.
    window.prepare(ival(0, 400));
    assert!(window.config.data_source.outstanding_requests() > first);
}

#[test]
fn later_delivery_of_the_same_tile_wins() {
    let mut window = Window::new(QueueDataSource::new(), info(), 0);
    let slot_id = EntryID::root().child(0).child(0).child(0);
    assert!(window.expand_slot(&slot_id));
    // Two views in turn request the same tile twice, so two answers
    // for it can be pending at once.
    window.prepare(ival(0, 1_000));
    window.prepare(ival(0, 400));
    let outstanding = window.config.data_source.outstanding_requests();

    // Two answers for the same tile arrive before the next poll; the
    // batch is applied in delivery order, so the second payload is the
    // one that sticks.
    let tile_id = TileID(ival(0, 500));
    let first = SlotTile {
        entry_id: slot_id.clone(),
        tile_id,
        data: SlotTileData { items: vec![Vec::new()] },
    };
    let second = SlotTile {
        entry_id: slot_id.clone(),
        tile_id,
        data: SlotTileData { items: vec![Vec::new(), Vec::new(), Vec::new()] },
    };
    assert!(window.config.data_source.data_source.deliver_slot_tile(first));
    assert!(window.config.data_source.data_source.deliver_slot_tile(second));
    window.poll();
    // Both results settle their requests.
    assert_eq!(window.config.data_source.outstanding_requests(), outstanding - 2);

    let slot = &window.panel.nodes[0].kinds[0].slots[0];
    let stored = slot
        .tiles
        .iter()
        .find(|(t, _)| *t == tile_id)
        .and_then(|(_, d)| d.as_ref())
        .expect("the tile arrived");
    assert_eq!(stored.items.len(), 3);
}
