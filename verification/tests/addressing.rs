//! Entry addressing: paths, prefixes, and the schema walk.

use prof_viewer::data::{EntryID, EntryIndex, EntryInfo, FieldID, FieldSchema};
use prof_viewer::data::Color;

fn color() -> Color {
    Color { r: 1, g: 2, b: 3, a: 255 }
}

#[test]
fn root_is_empty() {
    let root = EntryID::root();
    assert_eq!(root.level(), 0);
    assert!(root.last_index().is_none());
    assert!(root.last_slot_index().is_none());
    assert!(root.index(0).is_none());
}

#[test]
fn round_trip_child_indexes() {
    let id = EntryID::root().child(2).child(0);
    assert_eq!(id.level(), 2);
    assert_eq!(id.slot_index(0), Some(2));
    assert_eq!(id.slot_index(1), Some(0));
}

#[test]
fn summary_is_not_a_slot() {
    let id = EntryID::root().child(4).summary();
    assert_eq!(id.level(), 2);
    assert_eq!(id.slot_index(0), Some(4));
    assert!(id.slot_index(1).is_none());
    assert_eq!(id.last_index(), Some(EntryIndex::Summary));
    assert!(id.last_slot_index().is_none());
}

#[test]
fn last_index_classifies_slots() {
    let id = EntryID::root().child(7);
    assert_eq!(id.last_index(), Some(EntryIndex::Slot(7)));
    assert_eq!(id.last_slot_index(), Some(7));
    assert_eq!(id.index(0), Some(EntryIndex::Slot(7)));
    assert!(id.index(1).is_none());
}

#[test]
fn has_prefix_is_reflexive() {
    let a = EntryID::root().child(1).child(2).child(3);
    assert!(a.has_prefix(&a));
    let root = EntryID::root();
    assert!(root.has_prefix(&root));
}

#[test]
fn has_prefix_on_literal_prefixes() {
    let a = EntryID::root().child(1);
    let b = a.child(2);
    let c = b.child(3);
    assert!(c.has_prefix(&a));
    assert!(c.has_prefix(&b));
    assert!(b.has_prefix(&a));
    assert!(!a.has_prefix(&b));
    assert!(!b.has_prefix(&c));
    let other = EntryID::root().child(2);
    assert!(!c.has_prefix(&other));
}

#[test]
fn prefix_both_ways_means_equal() {
    let a = EntryID::root().child(5).child(6);
    let b = EntryID::root().child(5).child(6);
    assert!(a.has_prefix(&b));
    assert!(b.has_prefix(&a));
    assert_eq!(a, b);
}

fn slot(name: &str, rows: u64) -> EntryInfo {
    EntryInfo::Slot {
        short_name: name.to_string(),
        long_name: format!("long {name}"),
        max_rows: rows,
    }
}

fn panel(name: &str, slots: Vec<EntryInfo>) -> EntryInfo {
    EntryInfo::Panel {
        short_name: name.to_string(),
        long_name: format!("long {name}"),
        summary: None,
        slots,
    }
}

fn sample_schema() -> EntryInfo {
    // Two nodes; the first has kinds "cpu" and "mem", the second "cpu".
    let node0 = panel(
        "n0",
        vec![
            panel("cpu", vec![slot("c0", 2), slot("c1", 4)]),
            panel("mem", vec![slot("m0", 1)]),
        ],
    );
    let node1 = panel("n1", vec![panel("cpu", vec![slot("c2", 3)])]);
    EntryInfo::Panel {
        short_name: "root".to_string(),
        long_name: "the root".to_string(),
        summary: Some(Box::new(EntryInfo::Summary { color: color() })),
        slots: vec![node0, node1],
    }
}

#[test]
fn nodes_counts_first_level() {
    assert_eq!(sample_schema().nodes(), 2);
}

#[test]
fn kinds_are_distinct_in_first_occurrence_order() {
    let kinds = sample_schema().kinds();
    assert_eq!(kinds, vec!["cpu".to_string(), "mem".to_string()]);
}

#[test]
fn get_walks_the_tree() {
    let schema = sample_schema();
    let root_id = EntryID::root();
    let got = schema.get(&root_id).expect("root resolves");
    match got {
        EntryInfo::Panel { short_name, .. } => assert_eq!(short_name, "root"),
        _ => panic!("expected panel"),
    }

    let slot_id = EntryID::root().child(0).child(1).child(0);
    let got = schema.get(&slot_id).expect("slot resolves");
    match got {
        EntryInfo::Slot { short_name, max_rows, .. } => {
            assert_eq!(short_name, "m0");
            assert_eq!(*max_rows, 1);
        }
        _ => panic!("expected slot"),
    }
}

#[test]
fn get_summary_step_returns_summary() {
    let schema = sample_schema();
    let id = EntryID::root().summary();
    let got = schema.get(&id).expect("summary resolves");
    match got {
        EntryInfo::Summary { .. } => {}
        _ => panic!("expected summary"),
    }
}

#[test]
fn get_out_of_range_is_absent() {
    let schema = sample_schema();
    let id = EntryID::root().child(9);
    assert!(schema.get(&id).is_none());
}

#[test]
fn field_schema_issues_sequential_ids() {
    let mut schema = FieldSchema::new();
    assert!(!schema.contains_name(&"Title".to_string()));
    let a = schema.insert("alpha".to_string(), true);
    let b = schema.insert("beta".to_string(), false);
    let t = schema.insert("Title".to_string(), true);
    assert_eq!(a, FieldID(0));
    assert_eq!(b, FieldID(1));
    assert_eq!(t, FieldID(2));
    assert!(schema.contains_name(&"alpha".to_string()));
    assert_eq!(schema.get_name(a).map(|s| s.as_str()), Some("alpha"));
    assert!(schema.get_name(FieldID(9)).is_none());
    let searchable = schema.searchable();
    assert_eq!(searchable, vec![FieldID(0), FieldID(2)]);
}
