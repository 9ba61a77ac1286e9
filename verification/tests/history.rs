//! The navigation history: coalescing pans, undo/redo clamping, and
//! the zoom arithmetic.

use prof_viewer::nav::{Context, IntervalOrigin, IntervalSelectError, PanDirection};
use prof_viewer::timestamp::{Interval, Timestamp};

fn ival(start: i64, stop: i64) -> Interval {
    Interval::new(Timestamp(start), Timestamp(stop))
}

#[test]
fn consecutive_pans_coalesce() {
    let mut cx = Context::new(ival(0, 1000), ival(0, 1000));
    let i1 = ival(0, 100);
    let i2 = ival(100, 200);
    let i3 = ival(0, 400);
    cx.update_view_interval(i1, IntervalOrigin::Pan);
    cx.update_view_interval(i2, IntervalOrigin::Pan);
    cx.update_view_interval(i3, IntervalOrigin::Zoom);
    // The second pan replaced the first: two history levels remain.
    assert_eq!(cx.view_interval_history.levels, vec![i2, i3]);
    assert_eq!(
        cx.view_interval_history.origins,
        vec![IntervalOrigin::Pan, IntervalOrigin::Zoom]
    );
    assert_eq!(cx.view_interval_history.index, 1);
}

#[test]
fn pans_separated_by_zoom_do_not_coalesce() {
    let mut cx = Context::new(ival(0, 1000), ival(0, 1000));
    let i1 = ival(0, 100);
    let i2 = ival(50, 150);
    let i3 = ival(100, 200);
    cx.update_view_interval(i1, IntervalOrigin::Pan);
    cx.update_view_interval(i2, IntervalOrigin::Zoom);
    cx.update_view_interval(i3, IntervalOrigin::Pan);
    assert_eq!(cx.view_interval_history.levels, vec![i1, i2, i3]);
}

#[test]
fn undo_at_the_oldest_state_is_a_no_op() {
    let mut cx = Context::new(ival(0, 1000), ival(0, 1000));
    cx.undo_pan_zoom();
    assert_eq!(cx.view_interval_history.index, 0);
    assert_eq!(cx.view_interval, ival(0, 1000));

    cx.update_view_interval(ival(0, 100), IntervalOrigin::Zoom);
    cx.undo_pan_zoom();
    assert_eq!(cx.view_interval_history.index, 0);
    cx.undo_pan_zoom();
    assert_eq!(cx.view_interval_history.index, 0);
}

#[test]
fn redo_at_the_newest_state_is_a_no_op() {
    let mut cx = Context::new(ival(0, 1000), ival(0, 1000));
    cx.update_view_interval(ival(0, 100), IntervalOrigin::Zoom);
    cx.update_view_interval(ival(0, 200), IntervalOrigin::Zoom);
    assert_eq!(cx.view_interval_history.index, 1);
    cx.redo_pan_zoom();
    assert_eq!(cx.view_interval_history.index, 1);

    cx.undo_pan_zoom();
    assert_eq!(cx.view_interval, ival(0, 100));
    cx.redo_pan_zoom();
    assert_eq!(cx.view_interval, ival(0, 200));
    assert_eq!(cx.view_interval_history.index, 1);
}

#[test]
fn a_new_entry_discards_redo_states() {
    let mut cx = Context::new(ival(0, 1000), ival(0, 1000));
    cx.update_view_interval(ival(0, 100), IntervalOrigin::Zoom);
    cx.update_view_interval(ival(0, 200), IntervalOrigin::Zoom);
    cx.update_view_interval(ival(0, 300), IntervalOrigin::Zoom);
    cx.undo_pan_zoom();
    cx.undo_pan_zoom();
    assert_eq!(cx.view_interval, ival(0, 100));
    cx.update_view_interval(ival(0, 999), IntervalOrigin::Zoom);
    assert_eq!(cx.view_interval_history.levels, vec![ival(0, 100), ival(0, 999)]);
    assert_eq!(cx.view_interval_history.index, 1);
}

#[test]
fn idempotent_zoom_leaves_no_history_entry() {
    let mut cx = Context::new(ival(0, 1000), ival(0, 400));
    cx.zoom(ival(0, 400));
    assert_eq!(cx.view_interval_history.levels.len(), 0);
    cx.zoom(ival(0, 200));
    assert_eq!(cx.view_interval_history.levels.len(), 1);
}

#[test]
fn pan_translates_by_a_percentage() {
    let mut cx = Context::new(ival(0, 10_000), ival(1_000, 2_000));
    cx.pan(5, PanDirection::Right);
    assert_eq!(cx.view_interval, ival(1_050, 2_050));
    cx.pan(5, PanDirection::Left);
    assert_eq!(cx.view_interval, ival(1_000, 2_000));
    // A zero pan does nothing, and leaves no history entry.
    let levels_before = cx.view_interval_history.levels.len();
    cx.pan(0, PanDirection::Left);
    assert_eq!(cx.view_interval, ival(1_000, 2_000));
    assert_eq!(cx.view_interval_history.levels.len(), levels_before);
}

#[test]
fn zoom_in_narrows_by_a_quarter_each_side() {
    let mut cx = Context::new(ival(0, 10_000), ival(0, 1_000));
    cx.zoom_in();
    assert_eq!(cx.view_interval, ival(250, 750));
}

#[test]
fn select_start_validates_against_view_and_trace() {
    let mut cx = Context::new(ival(0, 1_000), ival(100, 500));
    // Past the view's stop.
    assert_eq!(
        cx.select_start(Timestamp(600)),
        Err(IntervalSelectError::StartAfterStop)
    );
    assert_eq!(cx.view_interval, ival(100, 500));
    // Accepted: the view narrows from the left.
    assert_eq!(cx.select_start(Timestamp(200)), Ok(()));
    assert_eq!(cx.view_interval, ival(200, 500));
}

#[test]
fn select_start_rejects_past_trace_end() {
    // The view may extend past the trace; a start inside the view but
    // beyond the trace's end is still refused.
    let mut cx = Context::new(ival(0, 1_000), ival(100, 1_500));
    assert_eq!(
        cx.select_start(Timestamp(1_200)),
        Err(IntervalSelectError::StartAfterEnd)
    );
    assert_eq!(cx.view_interval, ival(100, 1_500));
}

#[test]
fn select_stop_validates_against_view() {
    let mut cx = Context::new(ival(0, 1_000), ival(100, 500));
    assert_eq!(
        cx.select_stop(Timestamp(50)),
        Err(IntervalSelectError::StopBeforeStart)
    );
    assert_eq!(cx.view_interval, ival(100, 500));
    assert_eq!(cx.select_stop(Timestamp(900)), Ok(()));
    assert_eq!(cx.view_interval, ival(100, 900));
}

#[test]
fn zoom_out_widens_and_clamps_to_the_total() {
    let mut cx = Context::new(ival(0, 1_200), ival(400, 800));
    cx.zoom_out();
    assert_eq!(cx.view_interval, ival(200, 1_000));
    // Near the edge, the grown interval is clamped to the trace bounds.
    let mut cx = Context::new(ival(0, 1_000), ival(0, 800));
    cx.zoom_out();
    assert_eq!(cx.view_interval, ival(0, 1_000));
}
