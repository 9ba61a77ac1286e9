//! The incremental search cache: matching, monotonic growth,
//! invalidation, the result cap, and the display tree.

use prof_viewer::data::{EntryID, Field, FieldID, ItemLink, ItemMeta, ItemUID};
use prof_viewer::search::{SearchState, MAX_SEARCH_RESULTS};
use prof_viewer::timestamp::{Interval, Timestamp};

fn ival(start: i64, stop: i64) -> Interval {
    Interval::new(Timestamp(start), Timestamp(stop))
}

fn title_field() -> FieldID {
    FieldID(0)
}

fn item(uid: u64, title: &str) -> ItemMeta {
    ItemMeta {
        item_uid: ItemUID(uid),
        original_interval: ival(0, 10),
        title: title.to_string(),
        fields: Vec::new(),
    }
}

fn slot_entry(a: u64, b: u64, c: u64) -> EntryID {
    EntryID::root().child(a).child(b).child(c)
}

#[test]
fn title_substring_matching() {
    let mut search = SearchState::new(title_field());
    search.query = "copy".to_string();
    assert!(search.is_match(&item(1, "gpu copy kernel")));
    assert!(search.is_match(&item(2, "copy")));
    assert!(!search.is_match(&item(3, "compute")));
    // The empty query matches everything.
    search.query = String::new();
    assert!(search.is_match(&item(4, "anything")));
}

#[test]
fn field_matching_recurses_through_lists_and_links() {
    let mut search = SearchState::new(title_field());
    search.query = "needle".to_string();
    search.search_field = FieldID(7);

    let mut meta = item(1, "title without the word");
    assert!(!search.is_match(&meta));

    meta.fields.push((FieldID(7), Field::String("hay needle hay".to_string())));
    assert!(search.is_match(&meta));

    let mut meta = item(2, "x");
    meta.fields.push((
        FieldID(7),
        Field::List(vec![
            Field::I64(3),
            Field::ItemLink(ItemLink {
                item_uid: ItemUID(9),
                title: "a needle link".to_string(),
                interval: ival(0, 5),
                entry_id: slot_entry(0, 0, 0),
            }),
        ]),
    ));
    assert!(search.is_match(&meta));

    // Numeric and empty fields never match, and a missing field does
    // not match either.
    let mut meta = item(3, "x");
    meta.fields.push((FieldID(7), Field::U64(17)));
    assert!(!search.is_match(&meta));
    let mut meta = item(4, "x");
    meta.fields.push((FieldID(8), Field::String("needle".to_string())));
    assert!(!search.is_match(&meta));
}

#[test]
fn results_grow_monotonically_across_passes() {
    let mut search = SearchState::new(title_field());
    search.query = "t".to_string();
    let view = ival(0, 100);
    search.ensure_valid_cache(view);

    let entry = slot_entry(0, 0, 0);
    let tile_a = prof_viewer::data::TileID(ival(0, 50));
    let tile_b = prof_viewer::data::TileID(ival(50, 100));

    // First pass: one tile has arrived.
    assert!(search.start_entry(&entry));
    assert!(search.start_tile(&entry, tile_a));
    search.insert(&entry, tile_a, 0, &item(1, "task one"));
    assert_eq!(search.result_count(), 1);
    assert!(search.result_contains(ItemUID(1)));

    // Second pass, same query and view, more data: the old result is
    // still there and the new one joins it.
    search.ensure_valid_cache(view);
    assert!(search.start_entry(&entry));
    // The already-indexed tile is skipped.
    assert!(!search.start_tile(&entry, tile_a));
    assert!(search.start_tile(&entry, tile_b));
    search.insert(&entry, tile_b, 0, &item(2, "task two"));
    assert_eq!(search.result_count(), 2);
    assert!(search.result_contains(ItemUID(1)));
    assert!(search.result_contains(ItemUID(2)));

    // The same item counts once, wherever it is seen again.
    search.insert(&entry, tile_b, 1, &item(1, "task one"));
    assert_eq!(search.result_count(), 2);
}

#[test]
fn query_change_invalidates_the_cache() {
    let mut search = SearchState::new(title_field());
    search.query = "a".to_string();
    let view = ival(0, 100);
    search.ensure_valid_cache(view);

    let entry = slot_entry(0, 0, 0);
    let tile = prof_viewer::data::TileID(ival(0, 50));
    assert!(search.start_entry(&entry));
    assert!(search.start_tile(&entry, tile));
    search.insert(&entry, tile, 0, &item(1, "aa"));
    assert_eq!(search.result_count(), 1);

    // Same query: nothing is dropped.
    search.ensure_valid_cache(view);
    assert_eq!(search.result_count(), 1);

    // Changed query: everything is dropped, and the tile counts as
    // unindexed again.
    search.query = "b".to_string();
    search.ensure_valid_cache(view);
    assert_eq!(search.result_count(), 0);
    assert!(search.start_entry(&entry));
    assert!(search.start_tile(&entry, tile));
}

#[test]
fn view_change_invalidates_the_cache() {
    let mut search = SearchState::new(title_field());
    search.query = "a".to_string();
    search.ensure_valid_cache(ival(0, 100));
    let entry = slot_entry(0, 0, 0);
    let tile = prof_viewer::data::TileID(ival(0, 50));
    assert!(search.start_entry(&entry));
    assert!(search.start_tile(&entry, tile));
    search.insert(&entry, tile, 0, &item(1, "aa"));
    assert_eq!(search.result_count(), 1);

    search.ensure_valid_cache(ival(0, 200));
    assert_eq!(search.result_count(), 0);
}

#[test]
fn scope_shrinking_invalidates_growing_does_not() {
    let mut search = SearchState::new(title_field());
    search.query = "a".to_string();
    let view = ival(0, 100);
    search.ensure_valid_cache(view);
    let entry = slot_entry(0, 0, 0);
    let tile = prof_viewer::data::TileID(ival(0, 50));
    assert!(search.start_entry(&entry));
    assert!(search.start_tile(&entry, tile));
    search.insert(&entry, tile, 0, &item(1, "aa"));

    // Growing the searched set keeps the cache: results are monotonic.
    search.include_collapsed_entries = true;
    search.ensure_valid_cache(view);
    assert_eq!(search.result_count(), 1);

    // Shrinking it drops the cache: entries outside the narrower scope
    // would be stale.
    search.include_collapsed_entries = false;
    search.ensure_valid_cache(view);
    assert_eq!(search.result_count(), 0);
}

#[test]
fn search_field_change_invalidates_the_cache() {
    let mut search = SearchState::new(title_field());
    search.query = "a".to_string();
    let view = ival(0, 100);
    search.ensure_valid_cache(view);
    let entry = slot_entry(0, 0, 0);
    let tile = prof_viewer::data::TileID(ival(0, 50));
    assert!(search.start_entry(&entry));
    assert!(search.start_tile(&entry, tile));
    search.insert(&entry, tile, 0, &item(1, "aa"));
    assert_eq!(search.result_count(), 1);

    search.search_field = FieldID(3);
    search.ensure_valid_cache(view);
    assert_eq!(search.result_count(), 0);
}

#[test]
fn result_cap_saturates_and_reports_stop() {
    let mut search = SearchState::new(title_field());
    search.query = "i".to_string();
    search.ensure_valid_cache(ival(0, 100));

    let entry = slot_entry(0, 0, 0);
    let tile = prof_viewer::data::TileID(ival(0, 50));
    assert!(search.start_entry(&entry));
    assert!(search.start_tile(&entry, tile));

    // Insert one more distinct item than the cap allows.
    let total = MAX_SEARCH_RESULTS + 1;
    let mut uid: u64 = 0;
    while (uid as usize) < total {
        search.insert(&entry, tile, 0, &item(uid, "item"));
        uid += 1;
    }
    assert_eq!(search.result_count(), MAX_SEARCH_RESULTS);

    // Once capped, both traversal gates report "stop".
    assert!(!search.start_entry(&entry));
    assert!(!search.start_tile(&entry, tile));

    // Further inserts change nothing.
    search.insert(&entry, tile, 0, &item(u64::MAX, "item"));
    assert_eq!(search.result_count(), MAX_SEARCH_RESULTS);
}

#[test]
fn entry_tree_groups_nonempty_entries() {
    let mut search = SearchState::new(title_field());
    search.query = "a".to_string();
    search.ensure_valid_cache(ival(0, 100));

    let tile = prof_viewer::data::TileID(ival(0, 50));
    let with_match = slot_entry(1, 0, 2);
    let without_match = slot_entry(0, 1, 0);
    assert!(search.start_entry(&with_match));
    assert!(search.start_tile(&with_match, tile));
    search.insert(&with_match, tile, 0, &item(1, "aa"));
    // This entry gets a bucket but no results.
    assert!(search.start_entry(&without_match));
    assert!(search.start_tile(&without_match, tile));

    search.build_entry_tree();
    assert_eq!(search.entry_tree.len(), 1);
    let node = &search.entry_tree[0];
    assert_eq!(node.index, 1);
    assert_eq!(node.kinds.len(), 1);
    assert_eq!(node.kinds[0].index, 0);
    assert_eq!(node.kinds[0].slots, vec![2]);
}
