//! The node range and kind filter controls.

use prof_viewer::config::Config;
use prof_viewer::data::{DataSourceInfo, EntryInfo, FieldSchema, TileSet};
use prof_viewer::deferred_data::QueueDataSource;
use prof_viewer::timestamp::{Interval, Timestamp};

fn config() -> Config<QueueDataSource> {
    let info = DataSourceInfo {
        entry_info: EntryInfo::Panel {
            short_name: "root".to_string(),
            long_name: "root".to_string(),
            summary: None,
            slots: Vec::new(),
        },
        interval: Interval::new(Timestamp(0), Timestamp(1_000)),
        tile_set: TileSet::new(),
        field_schema: FieldSchema::new(),
    };
    Config::new(QueueDataSource::new(), info)
}

#[test]
fn kind_filter_toggles_membership() {
    let mut config = config();
    assert!(config.kind_filter.is_empty());

    config.set_kind_enabled(&"cpu".to_string(), true);
    config.set_kind_enabled(&"mem".to_string(), true);
    assert_eq!(config.kind_filter, vec!["cpu".to_string(), "mem".to_string()]);

    // Enabling an enabled kind adds nothing.
    config.set_kind_enabled(&"cpu".to_string(), true);
    assert_eq!(config.kind_filter.len(), 2);

    config.set_kind_enabled(&"cpu".to_string(), false);
    assert_eq!(config.kind_filter, vec!["mem".to_string()]);

    // Disabling a kind that is not listed changes nothing.
    config.set_kind_enabled(&"gpu".to_string(), false);
    assert_eq!(config.kind_filter, vec!["mem".to_string()]);
}

#[test]
fn node_range_clamps_min_to_max() {
    let mut config = config();
    config.set_node_range(2, 5);
    assert_eq!((config.min_node, config.max_node), (2, 5));
    // A first node past the last is pulled back.
    config.set_node_range(7, 5);
    assert_eq!((config.min_node, config.max_node), (5, 5));
}
