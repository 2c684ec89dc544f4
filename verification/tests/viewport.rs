//! Scrolling and the wheel.

use koma::mouse::Tracking as MouseTracking;
use koma::viewport::{alternate_scroll_bytes, viewport_target, wheel_action, WheelAction};

#[test]
fn alternate_scroll_sends_up_for_history_and_down_for_forward() {
    assert_eq!(alternate_scroll_bytes(1, false), b"\x1b[A".to_vec());
    assert_eq!(alternate_scroll_bytes(-1, false), b"\x1b[B".to_vec());
}

#[test]
fn alternate_scroll_uses_application_cursor_keys_when_set() {
    assert_eq!(alternate_scroll_bytes(1, true), b"\x1bOA".to_vec());
    assert_eq!(alternate_scroll_bytes(-1, true), b"\x1bOB".to_vec());
}

#[test]
fn alternate_scroll_repeats_once_per_line() {
    assert_eq!(alternate_scroll_bytes(3, false), b"\x1b[A\x1b[A\x1b[A".to_vec());
}

#[test]
fn alternate_scroll_sends_nothing_for_no_movement() {
    assert!(alternate_scroll_bytes(0, false).is_empty());
}

#[test]
fn alternate_scroll_is_capped() {
    // One gesture must not be able to inject an unbounded keystroke burst.
    let out = alternate_scroll_bytes(10_000, false);
    assert_eq!(out.len(), 32 * 3);
    let out = alternate_scroll_bytes(isize::MIN, false);
    assert_eq!(out.len(), 32 * 3, "the extreme negative must not overflow");
}

const NO_MOUSE: MouseTracking = MouseTracking::Off;

#[test]
fn the_wheel_scrolls_our_viewport_on_the_main_screen() {
    assert_eq!(wheel_action(false, NO_MOUSE, false), WheelAction::Viewport);
    assert_eq!(wheel_action(true, NO_MOUSE, false), WheelAction::Viewport);
}

#[test]
fn the_wheel_reaches_the_application_on_the_alternate_screen() {
    // less and man have no scrollback of ours, so the wheel drives them.
    assert_eq!(wheel_action(false, NO_MOUSE, true), WheelAction::Application);
}

#[test]
fn shift_takes_the_wheel_back_from_the_application() {
    // Shift is the escape hatch, and it wins on the alternate screen too: it
    // keeps the tick away from the program. What the viewport then does with it
    // is up to `viewport_target`, and there it is a no-op.
    assert_eq!(wheel_action(true, NO_MOUSE, true), WheelAction::Viewport);
    assert_eq!(wheel_action(true, MouseTracking::ButtonEvent, true), WheelAction::Viewport);
}

#[test]
fn the_viewport_will_not_walk_into_history_the_program_covered() {
    // Nothing under the alternate screen is worth showing, so nothing moves.
    assert_eq!(viewport_target(0, 3, 500, true), 0);
    assert_eq!(viewport_target(7, 1, 500, true), 7);
    // Shift+PageUp is the same damage by another key, so it is the same
    // answer: the rule lives here, below every scrollback entry point.
    assert_eq!(viewport_target(0, 40, 500, true), 0);
}

#[test]
fn an_orphaned_alternate_screen_scrolls_again() {
    // A killed program leaves the alternate screen up forever, so the
    // refusal above must not outlive the program it protects.
    assert_eq!(viewport_target(0, 3, 500, false), 3);
}

#[test]
fn the_viewport_can_always_come_back_to_the_live_screen() {
    // The direction that repairs stays open even on the alternate screen —
    // an offset set some other way must never strand the viewport.
    assert_eq!(viewport_target(5, -2, 500, true), 3);
    assert_eq!(viewport_target(5, -99, 500, true), 0);
}

#[test]
fn the_main_screen_scrolls_both_ways_and_clamps() {
    assert_eq!(viewport_target(0, 3, 500, false), 3);
    assert_eq!(viewport_target(3, -1, 500, false), 2);
    // Neither end runs past what is retained.
    assert_eq!(viewport_target(499, 5, 500, false), 500);
    assert_eq!(viewport_target(2, -9, 500, false), 0);
    assert_eq!(viewport_target(0, 1, 0, false), 0, "no scrollback, nowhere to go");
}

#[test]
fn a_tracking_program_gets_no_arrows_when_the_report_could_not_be_sent() {
    // Pointing at the gap between panes, or the window margin, resolves to no
    // cell, so no report goes out. That does not mean that the program did not
    // want the mouse.
    for tracking in [MouseTracking::Normal, MouseTracking::ButtonEvent, MouseTracking::AnyEvent]
    {
        assert_eq!(wheel_action(false, tracking, true), WheelAction::Ignore);
    }
}

#[test]
fn a_tracking_program_is_not_scrolled_over_either() {
    // Dropping the tick, not falling back to the viewport. 1007 off (no arrows)
    // and the main screen are both still Ignore while tracking is on.
    assert_eq!(wheel_action(false, MouseTracking::ButtonEvent, false), WheelAction::Ignore);
}
