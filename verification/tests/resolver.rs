//! The level-of-detail tile resolver and its memoization.

use prof_viewer::config::Config;
use prof_viewer::data::{DataSourceInfo, EntryInfo, FieldSchema, TileID, TileSet};
use prof_viewer::deferred_data::QueueDataSource;
use prof_viewer::timestamp::{Interval, Timestamp};

fn ival(start: i64, stop: i64) -> Interval {
    Interval::new(Timestamp(start), Timestamp(stop))
}

/// One level of consecutive tiles of the given duration covering
/// `[0, total)`.
fn level(duration: i64, total: i64) -> Vec<TileID> {
    let mut tiles = Vec::new();
    let mut start = 0;
    while start < total {
        tiles.push(TileID(ival(start, start + duration)));
        start += duration;
    }
    tiles
}

fn empty_panel() -> EntryInfo {
    EntryInfo::Panel {
        short_name: "root".to_string(),
        long_name: "root".to_string(),
        summary: None,
        slots: Vec::new(),
    }
}

fn config_with(tile_set: TileSet) -> Config<QueueDataSource> {
    let info = DataSourceInfo {
        entry_info: empty_panel(),
        interval: ival(0, 1_000_000),
        tile_set,
        field_schema: FieldSchema::new(),
    };
    Config::new(QueueDataSource::new(), info)
}

#[test]
fn resolver_picks_the_best_matching_level() {
    // Levels with tile durations 100, 10_000, and 1_000_000 ns. A
    // request of 9_000 ns has ratios 90, 1, and 111: the middle level
    // wins.
    let tile_set = TileSet {
        tiles: vec![
            level(100, 1_000_000),
            level(10_000, 1_000_000),
            level(1_000_000, 1_000_000),
        ],
    };
    let mut config = config_with(tile_set);
    let tiles = config.request_tiles(ival(20_000, 29_000));
    // Only tiles of the 10_000 ns level overlapping [20_000, 29_000).
    assert_eq!(tiles, vec![TileID(ival(20_000, 30_000))]);
}

#[test]
fn resolver_first_minimum_wins() {
    // Two levels with the same duration: the first one wins the tie.
    let tile_set = TileSet {
        tiles: vec![level(1_000, 4_000), level(1_000, 2_000)],
    };
    let mut config = config_with(tile_set);
    let tiles = config.request_tiles(ival(0, 1_000));
    // The first level covers [0, 4_000); the overlap with [0, 1_000) is
    // its first tile.
    assert_eq!(tiles, vec![TileID(ival(0, 1_000))]);
    // A tile of the second level would be identical here, so check a
    // wider request to tell the levels apart.
    let tiles = config.request_tiles(ival(2_500, 3_500));
    assert_eq!(
        tiles,
        vec![TileID(ival(2_000, 3_000)), TileID(ival(3_000, 4_000))]
    );
}

#[test]
fn resolver_zero_duration_request_prefers_first_level() {
    let tile_set = TileSet {
        tiles: vec![level(100, 1_000), level(10, 1_000)],
    };
    let mut config = config_with(tile_set);
    // A zero-duration request must not divide by zero; every level
    // ties, and the first candidate is kept.
    let tiles = config.request_tiles(ival(150, 150));
    assert_eq!(tiles, vec![TileID(ival(100, 200))]);
}

#[test]
fn resolver_dynamic_trace_uses_request_as_tile() {
    let mut config = config_with(TileSet::new());
    let req = ival(10, 500);
    let tiles = config.request_tiles(req);
    assert_eq!(tiles, vec![TileID(req)]);
}

#[test]
fn resolver_memoizes_the_last_request() {
    let tile_set = TileSet {
        tiles: vec![level(100, 10_000)],
    };
    let mut config = config_with(tile_set);
    assert_eq!(config.resolutions, 0);

    let first = config.request_tiles(ival(0, 300));
    assert_eq!(config.resolutions, 1);

    // The identical request is answered from the memo: the selection
    // logic does not run again and the same tiles come back.
    let second = config.request_tiles(ival(0, 300));
    assert_eq!(config.resolutions, 1);
    assert_eq!(first, second);

    // A different request recomputes.
    let third = config.request_tiles(ival(0, 100));
    assert_eq!(config.resolutions, 2);
    assert_eq!(third, vec![TileID(ival(0, 100))]);

    // Going back to the old interval recomputes again: only the
    // immediately preceding request is remembered.
    let fourth = config.request_tiles(ival(0, 300));
    assert_eq!(config.resolutions, 3);
    assert_eq!(first, fourth);
}

#[test]
fn resolver_keeps_only_overlapping_tiles_in_order() {
    let tile_set = TileSet {
        tiles: vec![level(100, 1_000)],
    };
    let mut config = config_with(tile_set);
    let tiles = config.request_tiles(ival(150, 420));
    assert_eq!(
        tiles,
        vec![
            TileID(ival(100, 200)),
            TileID(ival(200, 300)),
            TileID(ival(300, 400)),
            TileID(ival(400, 500)),
        ]
    );
}
