//! Time points and half-open time ranges.
//!
//! A `Timestamp` is a signed number of nanoseconds; an `Interval` is the
//! half-open range `[start, stop)`. Intervals drive tile selection and
//! navigation, so the arithmetic here states exactly how ranges move,
//! grow, and combine.

use vstd::prelude::*;

verus! {

/// A point in time, in nanoseconds.
#[derive(Debug, Copy, Clone, PartialEq, Eq, Structural, Hash)]
pub struct Timestamp(pub i64);

/// The half-open time range `[start, stop)`.
#[derive(Debug, Copy, Clone, PartialEq, Eq, Structural, Hash)]
pub struct Interval {
    pub start: Timestamp,
    pub stop: Timestamp,
}

impl Interval {
    /// A well-formed interval does not end before it starts, and its
    /// duration fits in an `i64`.
    pub open spec fn wf(self) -> bool {
        self.start.0 <= self.stop.0 && self.stop.0 - self.start.0 <= i64::MAX
    }

    /// The length of the range, in nanoseconds.
    pub open spec fn duration(self) -> int {
        self.stop.0 - self.start.0
    }

    /// Whether `self` and `other` share at least one point.
    pub open spec fn spec_overlaps(self, other: Interval) -> bool {
        self.start.0 < other.stop.0 && other.start.0 < self.stop.0
    }

    /// Whether the time point `ts` lies inside the range.
    pub open spec fn spec_contains(self, ts: Timestamp) -> bool {
        self.start.0 <= ts.0 < self.stop.0
    }

    pub fn new(start: Timestamp, stop: Timestamp) -> (r: Interval)
        ensures
            r.start == start,
            r.stop == stop,
    {
        Interval { start, stop }
    }

    pub fn duration_ns(&self) -> (r: i64)
        requires
            self.wf(),
        ensures
            r == self.duration(),
    {
        self.stop.0 - self.start.0
    }

    pub fn overlaps(&self, other: Interval) -> (r: bool)
        ensures
            r == self.spec_overlaps(other),
    {
        self.start.0 < other.stop.0 && other.start.0 < self.stop.0
    }

    pub fn contains(&self, ts: Timestamp) -> (r: bool)
        ensures
            r == self.spec_contains(ts),
    {
        self.start.0 <= ts.0 && ts.0 < self.stop.0
    }

    /// The smallest range covering both `self` and `other`.
    pub fn union(&self, other: Interval) -> (r: Interval)
        ensures
            r.start.0 == if self.start.0 <= other.start.0 {
                self.start.0
            } else {
                other.start.0
            },
            r.stop.0 == if self.stop.0 >= other.stop.0 {
                self.stop.0
            } else {
                other.stop.0
            },
    {
        let start = if self.start.0 <= other.start.0 {
            self.start
        } else {
            other.start
        };
        let stop = if self.stop.0 >= other.stop.0 {
            self.stop
        } else {
            other.stop
        };
        Interval { start, stop }
    }

    /// The largest range covered by both `self` and `other`.
    pub fn intersection(&self, other: Interval) -> (r: Interval)
        ensures
            r.start.0 == if self.start.0 >= other.start.0 {
                self.start.0
            } else {
                other.start.0
            },
            r.stop.0 == if self.stop.0 <= other.stop.0 {
                self.stop.0
            } else {
                other.stop.0
            },
    {
        let start = if self.start.0 >= other.start.0 {
            self.start
        } else {
            other.start
        };
        let stop = if self.stop.0 <= other.stop.0 {
            self.stop
        } else {
            other.stop
        };
        Interval { start, stop }
    }

    /// The range shifted by `d` nanoseconds.
    pub fn translate(&self, d: i64) -> (r: Interval)
        requires
            i64::MIN <= self.start.0 + d <= i64::MAX,
            i64::MIN <= self.stop.0 + d <= i64::MAX,
        ensures
            r.start.0 == self.start.0 + d,
            r.stop.0 == self.stop.0 + d,
    {
        Interval { start: Timestamp(self.start.0 + d), stop: Timestamp(self.stop.0 + d) }
    }

    /// The range widened by `d` nanoseconds on each side (narrowed, for
    /// negative `d`).
    pub fn grow(&self, d: i64) -> (r: Interval)
        requires
            i64::MIN <= self.start.0 - d <= i64::MAX,
            i64::MIN <= self.stop.0 + d <= i64::MAX,
        ensures
            r.start.0 == self.start.0 - d,
            r.stop.0 == self.stop.0 + d,
    {
        Interval { start: Timestamp(self.start.0 - d), stop: Timestamp(self.stop.0 + d) }
    }
}

} // verus!
