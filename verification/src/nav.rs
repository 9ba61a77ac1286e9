//! View navigation: the current view interval and its undo/redo
//! history.
//!
//! Every zoom or pan pushes the new view onto a history stack and
//! discards any redo states past the current position. Consecutive pans
//! coalesce: a pan replaces an immediately preceding pan instead of
//! stacking, so a rapid gesture undoes in one step. Undo and redo move
//! the position by one and are no-ops at either end.

use vstd::prelude::*;

use crate::timestamp::{Interval, Timestamp};

verus! {

/// What caused a view change; consecutive `Pan` entries coalesce.
#[derive(Debug, Copy, Clone, PartialEq, Eq, Structural, Hash)]
pub enum IntervalOrigin {
    Zoom,
    Pan,
}

/// Which way a pan moves the view.
#[derive(Debug, Copy, Clone, PartialEq, Eq, Structural, Hash)]
pub enum PanDirection {
    Left,
    Right,
}

/// The undo/redo stack of view intervals: the states, what caused each,
/// and the current position.
#[derive(Debug, Clone)]
pub struct IntervalState {
    pub levels: Vec<Interval>,
    pub origins: Vec<IntervalOrigin>,
    pub index: usize,
}

impl IntervalState {
    /// Origins parallel levels, and once the stack is non-empty the
    /// position stays inside it.
    pub open spec fn wf(&self) -> bool {
        &&& self.levels@.len() == self.origins@.len()
        &&& self.levels@.len() > 0 ==> self.index < self.levels@.len()
        &&& self.levels@.len() == 0 ==> self.index == 0
    }

    pub fn new() -> (r: Self)
        ensures
            r.wf(),
            r.levels@.len() == 0,
            r.origins@.len() == 0,
            r.index == 0,
    {
        Self { levels: Vec::new(), origins: Vec::new(), index: 0 }
    }
}

/// How many history states survive an update: a pan landing on a pan
/// replaces it, anything else keeps the states up to and including the
/// current one and discards the rest.
pub open spec fn history_keep(h: IntervalState, origin: IntervalOrigin) -> int {
    if h.levels@.len() > 0 && h.origins@[h.index as int] == IntervalOrigin::Pan && origin
        == IntervalOrigin::Pan {
        h.index as int
    } else if h.index + 1 <= h.levels@.len() {
        h.index + 1
    } else {
        h.levels@.len() as int
    }
}

/// Why a hand-entered interval bound was rejected. The first three
/// variants mirror parse failures reported by the text layer; the rest
/// are ordering violations against the current view and trace bounds.
#[derive(Debug, Copy, Clone, PartialEq, Eq, Structural, Hash)]
pub enum IntervalSelectError {
    InvalidValue,
    NoUnit,
    InvalidUnit,
    StartAfterStop,
    StartAfterEnd,
    StopBeforeStart,
}

/// The navigation state of a viewer: the overall time bounds of the
/// loaded traces, the visible window, and the window's history.
#[derive(Debug, Clone)]
pub struct Context {
    pub total_interval: Interval,
    pub view_interval: Interval,
    pub view_interval_history: IntervalState,
}

impl Context {
    pub open spec fn wf(&self) -> bool {
        self.view_interval_history.wf()
    }

    pub fn new(total_interval: Interval, view_interval: Interval) -> (r: Self)
        ensures
            r.wf(),
            r.total_interval == total_interval,
            r.view_interval == view_interval,
            r.view_interval_history.levels@.len() == 0,
    {
        Self { total_interval, view_interval, view_interval_history: IntervalState::new() }
    }

    /// Makes `interval` the visible window and records it: redo states
    /// past the current position are discarded, and a pan immediately
    /// following a pan replaces it instead of stacking.
    pub fn update_view_interval(&mut self, interval: Interval, origin: IntervalOrigin)
        requires
            old(self).wf(),
        ensures
            final(self).wf(),
            final(self).total_interval == old(self).total_interval,
            final(self).view_interval == interval,
            final(self).view_interval_history.levels@ == old(self).view_interval_history.levels@.take(
                history_keep(old(self).view_interval_history, origin),
            ).push(interval),
            final(self).view_interval_history.origins@ == old(self).view_interval_history.origins@.take(
                history_keep(old(self).view_interval_history, origin),
            ).push(origin),
            final(self).view_interval_history.index == final(self).view_interval_history.levels@.len() - 1,
    {
        self.view_interval = interval;

        let index = self.view_interval_history.index;

        // Keep at most one Pan origin in a row.
        if self.view_interval_history.levels.len() > 0 {
            let last_origin = self.view_interval_history.origins[index];
            let coalesce = match (last_origin, origin) {
                (IntervalOrigin::Pan, IntervalOrigin::Pan) => true,
                _ => false,
            };
            if coalesce {
                self.view_interval_history.levels.truncate(index);
                self.view_interval_history.origins.truncate(index);
            }
        }

        let keep = index + 1;
        self.view_interval_history.levels.truncate(keep);
        self.view_interval_history.origins.truncate(keep);
        self.view_interval_history.levels.push(interval);
        self.view_interval_history.origins.push(origin);
        self.view_interval_history.index = self.view_interval_history.levels.len() - 1;
    }

    /// Steps one state back in the history; a no-op at the oldest
    /// state.
    pub fn undo_pan_zoom(&mut self)
        requires
            old(self).wf(),
        ensures
            final(self).wf(),
            final(self).total_interval == old(self).total_interval,
            final(self).view_interval_history.levels == old(self).view_interval_history.levels,
            final(self).view_interval_history.origins == old(self).view_interval_history.origins,
            old(self).view_interval_history.index == 0 ==> *final(self) == *old(self),
            old(self).view_interval_history.index > 0 ==> final(self).view_interval_history.index
                == old(self).view_interval_history.index - 1 && final(self).view_interval == old(self).view_interval_history.levels@[old(self).view_interval_history.index - 1],
    {
        if self.view_interval_history.index == 0 {
            return ;
        }
        self.view_interval_history.index = self.view_interval_history.index - 1;
        self.view_interval = self.view_interval_history.levels[self.view_interval_history.index];
    }

    /// Steps one state forward in the history; a no-op at the newest
    /// state.
    pub fn redo_pan_zoom(&mut self)
        requires
            old(self).wf(),
        ensures
            final(self).wf(),
            final(self).total_interval == old(self).total_interval,
            final(self).view_interval_history.levels == old(self).view_interval_history.levels,
            final(self).view_interval_history.origins == old(self).view_interval_history.origins,
            old(self).view_interval_history.index + 1 >= old(self).view_interval_history.levels@.len() ==> *final(self) == *old(self),
            old(self).view_interval_history.index + 1 < old(self).view_interval_history.levels@.len() ==> final(self).view_interval_history.index
                == old(self).view_interval_history.index + 1 && final(self).view_interval == old(self).view_interval_history.levels@[old(self).view_interval_history.index + 1],
    {
        let len = self.view_interval_history.levels.len();
        if self.view_interval_history.index + 1 >= len {
            return ;
        }
        self.view_interval_history.index = self.view_interval_history.index + 1;
        self.view_interval = self.view_interval_history.levels[self.view_interval_history.index];
    }

    /// Zooms to `interval`: a no-op when it already is the view, so an
    /// idempotent zoom request leaves no empty history entry.
    pub fn zoom(&mut self, interval: Interval)
        requires
            old(self).wf(),
        ensures
            final(self).wf(),
            final(self).total_interval == old(self).total_interval,
            old(self).view_interval == interval ==> *final(self) == *old(self),
            old(self).view_interval != interval ==> final(self).view_interval == interval && final(self).view_interval_history.levels@ == old(self).view_interval_history.levels@.take(
                history_keep(old(self).view_interval_history, IntervalOrigin::Zoom),
            ).push(interval) && final(self).view_interval_history.origins@ == old(self).view_interval_history.origins@.take(
                history_keep(old(self).view_interval_history, IntervalOrigin::Zoom),
            ).push(IntervalOrigin::Zoom) && final(self).view_interval_history.index == final(self).view_interval_history.levels@.len() - 1,
    {
        if self.view_interval == interval {
            return ;
        }
        self.update_view_interval(interval, IntervalOrigin::Zoom);
    }

    /// Applies a hand-entered view start: rejected, without touching
    /// the view, when it lies after the view's stop or after the end of
    /// the trace; otherwise the view zooms to the narrowed range.
    pub fn select_start(&mut self, start: Timestamp) -> (r: Result<(), IntervalSelectError>)
        requires
            old(self).wf(),
        ensures
            final(self).wf(),
            final(self).total_interval == old(self).total_interval,
            r == if start.0 > old(self).view_interval.stop.0 {
                Err::<(), IntervalSelectError>(IntervalSelectError::StartAfterStop)
            } else if start.0 > old(self).total_interval.stop.0 {
                Err::<(), IntervalSelectError>(IntervalSelectError::StartAfterEnd)
            } else {
                Ok::<(), IntervalSelectError>(())
            },
            r is Err ==> *final(self) == *old(self),
            r is Ok ==> final(self).view_interval == (Interval {
                start,
                stop: old(self).view_interval.stop,
            }),
    {
        if start.0 > self.view_interval.stop.0 {
            return Err(IntervalSelectError::StartAfterStop);
        }
        if start.0 > self.total_interval.stop.0 {
            return Err(IntervalSelectError::StartAfterEnd);
        }
        let target = Interval::new(start, self.view_interval.stop);
        self.zoom(target);
        Ok(())
    }

    /// Applies a hand-entered view stop: rejected, without touching the
    /// view, when it lies before the view's start; otherwise the view
    /// zooms to the adjusted range.
    pub fn select_stop(&mut self, stop: Timestamp) -> (r: Result<(), IntervalSelectError>)
        requires
            old(self).wf(),
        ensures
            final(self).wf(),
            final(self).total_interval == old(self).total_interval,
            r == if stop.0 < old(self).view_interval.start.0 {
                Err::<(), IntervalSelectError>(IntervalSelectError::StopBeforeStart)
            } else {
                Ok::<(), IntervalSelectError>(())
            },
            r is Err ==> *final(self) == *old(self),
            r is Ok ==> final(self).view_interval == (Interval {
                start: old(self).view_interval.start,
                stop,
            }),
    {
        if stop.0 < self.view_interval.start.0 {
            return Err(IntervalSelectError::StopBeforeStart);
        }
        let target = Interval::new(self.view_interval.start, stop);
        self.zoom(target);
        Ok(())
    }

    /// How far a pan of `percent` percent moves the view, in
    /// nanoseconds.
    pub open spec fn pan_amount(view: Interval, percent: u8) -> int {
        view.duration() * percent / 100
    }

    /// Pans the view by a percentage of its width. A zero pan does
    /// nothing; otherwise the translated view is recorded with the
    /// `Pan` origin, coalescing with an immediately preceding pan.
    pub fn pan(&mut self, percent: u8, dir: PanDirection)
        requires
            old(self).wf(),
            old(self).view_interval.wf(),
            percent <= 100,
            old(self).view_interval.duration() * percent <= i64::MAX,
            i64::MIN <= old(self).view_interval.start.0 - Self::pan_amount(
                old(self).view_interval,
                percent,
            ),
            old(self).view_interval.stop.0 + Self::pan_amount(old(self).view_interval, percent)
                <= i64::MAX,
        ensures
            final(self).wf(),
            final(self).total_interval == old(self).total_interval,
            percent == 0 ==> *final(self) == *old(self),
            percent > 0 ==> final(self).view_interval.start.0 == old(self).view_interval.start.0
                + (match dir {
                PanDirection::Left => -Self::pan_amount(old(self).view_interval, percent),
                PanDirection::Right => Self::pan_amount(old(self).view_interval, percent),
            }) && final(self).view_interval.duration() == old(self).view_interval.duration()
                && final(self).view_interval_history.levels@.last() == final(self).view_interval
                && final(self).view_interval_history.origins@.last() == IntervalOrigin::Pan,
    {
        if percent == 0 {
            return ;
        }
        let duration = self.view_interval.duration_ns() * (percent as i64) / 100;
        let interval = match dir {
            PanDirection::Left => self.view_interval.translate(-duration),
            PanDirection::Right => self.view_interval.translate(duration),
        };
        self.update_view_interval(interval, IntervalOrigin::Pan);
    }

    /// Zooms in by a quarter of the view's width on each side.
    pub fn zoom_in(&mut self)
        requires
            old(self).wf(),
            old(self).view_interval.wf(),
        ensures
            final(self).wf(),
            final(self).total_interval == old(self).total_interval,
            ({
                let quarter = old(self).view_interval.duration() / 4;
                let target = Interval {
                    start: Timestamp(
                        (old(self).view_interval.start.0 + quarter) as i64,
                    ),
                    stop: Timestamp(
                        (old(self).view_interval.stop.0 - quarter) as i64,
                    ),
                };
                old(self).view_interval == target ==> *final(self) == *old(self)
            }),
            ({
                let quarter = old(self).view_interval.duration() / 4;
                let target = Interval {
                    start: Timestamp(
                        (old(self).view_interval.start.0 + quarter) as i64,
                    ),
                    stop: Timestamp(
                        (old(self).view_interval.stop.0 - quarter) as i64,
                    ),
                };
                old(self).view_interval != target ==> final(self).view_interval == target
            }),
    {
        let quarter = self.view_interval.duration_ns() / 4;
        let target = self.view_interval.grow(-quarter);
        self.zoom(target);
    }

    /// Zooms out by half of the view's width on each side, clamped to
    /// the overall bounds of the loaded traces.
    pub fn zoom_out(&mut self)
        requires
            old(self).wf(),
            old(self).view_interval.wf(),
            i64::MIN <= old(self).view_interval.start.0 - old(self).view_interval.duration() / 2,
            old(self).view_interval.stop.0 + old(self).view_interval.duration() / 2 <= i64::MAX,
        ensures
            final(self).wf(),
            final(self).total_interval == old(self).total_interval,
            ({
                let half = old(self).view_interval.duration() / 2;
                let grown_start = old(self).view_interval.start.0 - half;
                let grown_stop = old(self).view_interval.stop.0 + half;
                let total_start = old(self).total_interval.start.0 as int;
                let total_stop = old(self).total_interval.stop.0 as int;
                let target = Interval {
                    start: Timestamp(
                        (if grown_start >= total_start {
                            grown_start
                        } else {
                            total_start
                        }) as i64,
                    ),
                    stop: Timestamp(
                        (if grown_stop <= total_stop {
                            grown_stop
                        } else {
                            total_stop
                        }) as i64,
                    ),
                };
                (old(self).view_interval == target ==> *final(self) == *old(self)) && (old(self).view_interval != target ==> final(self).view_interval == target)
            }),
    {
        let half = self.view_interval.duration_ns() / 2;
        let grown = self.view_interval.grow(half);
        let target = grown.intersection(self.total_interval);
        self.zoom(target);
    }
}

} // verus!
