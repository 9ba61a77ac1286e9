//! Request accounting over the deferred fetch/drain protocol.

use prof_viewer::data::{EntryID, SlotTile, SlotTileData, SummaryTile, SummaryTileData, TileID};
use prof_viewer::deferred_data::{CountingDeferredDataSource, QueueDataSource};
use prof_viewer::timestamp::{Interval, Timestamp};

fn ival(start: i64, stop: i64) -> Interval {
    Interval::new(Timestamp(start), Timestamp(stop))
}

fn slot_tile(entry_id: &EntryID, tile_id: TileID) -> SlotTile {
    SlotTile {
        entry_id: entry_id.clone(),
        tile_id,
        data: SlotTileData { items: Vec::new() },
    }
}

#[test]
fn counter_returns_to_baseline_after_full_drain() {
    let mut source = CountingDeferredDataSource::new(QueueDataSource::new());
    let entry = EntryID::root().child(0).child(0).child(0);
    assert_eq!(source.outstanding_requests(), 0);

    let n = 5u64;
    for i in 0..n {
        let tile_id = TileID(ival(i as i64 * 100, (i as i64 + 1) * 100));
        source.fetch_slot_tile(&entry, tile_id, false);
    }
    assert_eq!(source.outstanding_requests(), n);

    // The transport completes every request.
    for i in 0..n {
        let tile_id = TileID(ival(i as i64 * 100, (i as i64 + 1) * 100));
        assert!(source.data_source.deliver_slot_tile(slot_tile(&entry, tile_id)));
    }
    assert_eq!(source.outstanding_requests(), n);

    // One drain returns all N results and settles their requests.
    let drained = source.get_slot_tiles();
    assert_eq!(drained.len(), n as usize);
    assert_eq!(source.outstanding_requests(), 0);
}

#[test]
fn partial_completions_settle_only_what_arrived() {
    let mut source = CountingDeferredDataSource::new(QueueDataSource::new());
    let entry = EntryID::root().child(0).child(0).child(0);
    for i in 0..5i64 {
        source.fetch_slot_tile(&entry, TileID(ival(i * 100, (i + 1) * 100)), false);
    }
    // Only two results have arrived when the drain runs.
    for i in 0..2i64 {
        let tile = slot_tile(&entry, TileID(ival(i * 100, (i + 1) * 100)));
        assert!(source.data_source.deliver_slot_tile(tile));
    }
    let drained = source.get_slot_tiles();
    assert_eq!(drained.len(), 2);
    assert_eq!(source.outstanding_requests(), 3);
}

#[test]
fn draining_nothing_leaves_the_counter_alone() {
    let mut source = CountingDeferredDataSource::new(QueueDataSource::new());
    let entry = EntryID::root().child(0).child(0).child(0);
    source.fetch_slot_tile(&entry, TileID(ival(0, 100)), false);
    assert_eq!(source.outstanding_requests(), 1);

    // Nothing has completed yet: the drain returns nothing and the
    // counter stays.
    let drained = source.get_slot_tiles();
    assert!(drained.is_empty());
    assert_eq!(source.outstanding_requests(), 1);
}

#[test]
fn counter_spans_request_kinds() {
    let mut source = CountingDeferredDataSource::new(QueueDataSource::new());
    let entry = EntryID::root().child(0).child(0).child(0);
    let summary_entry = EntryID::root().child(0).summary();
    source.fetch_info();
    source.fetch_summary_tile(&summary_entry, TileID(ival(0, 100)), false);
    source.fetch_slot_tile(&entry, TileID(ival(0, 100)), false);
    source.fetch_slot_meta_tile(&entry, TileID(ival(0, 100)), true);
    assert_eq!(source.outstanding_requests(), 4);

    let tile = SummaryTile {
        entry_id: summary_entry.clone(),
        tile_id: TileID(ival(0, 100)),
        data: SummaryTileData { utilization: Vec::new() },
    };
    assert!(source.data_source.deliver_summary_tile(tile));
    let drained = source.get_summary_tiles();
    assert_eq!(drained.len(), 1);
    assert_eq!(source.outstanding_requests(), 3);
}

#[test]
fn transport_must_echo_a_pending_request() {
    let mut source = CountingDeferredDataSource::new(QueueDataSource::new());
    let entry = EntryID::root().child(0).child(0).child(0);
    source.fetch_slot_tile(&entry, TileID(ival(0, 100)), false);

    // A result for a tile that was never requested is refused: the
    // transport contract says results echo their request.
    let stray = slot_tile(&entry, TileID(ival(500, 600)));
    assert!(!source.data_source.deliver_slot_tile(stray));
    assert_eq!(source.outstanding_requests(), 1);

    // Delivering the same completion twice is refused the second time,
    // so a double delivery can never drive the counter negative.
    let good = slot_tile(&entry, TileID(ival(0, 100)));
    assert!(source.data_source.deliver_slot_tile(good));
    let again = slot_tile(&entry, TileID(ival(0, 100)));
    assert!(!source.data_source.deliver_slot_tile(again));

    let drained = source.get_slot_tiles();
    assert_eq!(drained.len(), 1);
    assert_eq!(source.outstanding_requests(), 0);
}
