//! Interval arithmetic: overlap, containment, union, intersection,
//! translation and growth.

use prof_viewer::timestamp::{Interval, Timestamp};

fn ival(start: i64, stop: i64) -> Interval {
    Interval::new(Timestamp(start), Timestamp(stop))
}

#[test]
fn duration_and_containment() {
    let i = ival(10, 40);
    assert_eq!(i.duration_ns(), 30);
    assert!(i.contains(Timestamp(10)));
    assert!(i.contains(Timestamp(39)));
    // The range is half-open: the stop point lies outside.
    assert!(!i.contains(Timestamp(40)));
    assert!(!i.contains(Timestamp(9)));
}

#[test]
fn overlap_is_symmetric_and_half_open() {
    let a = ival(0, 10);
    let b = ival(5, 15);
    let c = ival(10, 20);
    assert!(a.overlaps(b));
    assert!(b.overlaps(a));
    // Touching at the boundary is no overlap: [0,10) and [10,20) share
    // no point.
    assert!(!a.overlaps(c));
    assert!(!c.overlaps(a));
}

#[test]
fn union_and_intersection() {
    let a = ival(0, 10);
    let b = ival(5, 20);
    assert_eq!(a.union(b), ival(0, 20));
    assert_eq!(a.intersection(b), ival(5, 10));
    let disjoint = ival(50, 60);
    assert_eq!(a.union(disjoint), ival(0, 60));
}

#[test]
fn translate_and_grow() {
    let a = ival(100, 200);
    assert_eq!(a.translate(50), ival(150, 250));
    assert_eq!(a.translate(-50), ival(50, 150));
    assert_eq!(a.grow(25), ival(75, 225));
    assert_eq!(a.grow(-25), ival(125, 175));
}
