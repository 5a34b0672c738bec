//! The window of request numbers a session accepts.

use o89_core::idents::ReqId;
use o89_core::req_window::{OutOfWindow, ReqWindow};

fn opened_window(opened: u32) -> ReqWindow {
    ReqWindow::opened_by(ReqId(opened))
}

#[test]
fn p_022_each_new_req_id_is_accepted_once_and_its_replay_refused() {
    let mut window = opened_window(1);
    for id in 2..=40 {
        assert_eq!(window.accept(ReqId(id)), Ok(()), "{id}");
        assert_eq!(window.accept(ReqId(id)), Err(OutOfWindow::Replayed), "{id}");
    }
    // The Hello that opened the session is inside the window and was
    // accepted.
    let mut fresh = opened_window(7);
    assert_eq!(fresh.accept(ReqId(7)), Err(OutOfWindow::Replayed));
}

#[test]
fn p_022_a_req_id_below_highest_minus_max_inflight_is_refused() {
    let mut window = opened_window(10);
    assert_eq!(window.accept(ReqId(20)), Ok(()));
    // 16 is the floor, 20 − 4: never seen, accepted.
    assert_eq!(window.accept(ReqId(16)), Ok(()));
    // 15 is below it, never seen, and refused anyway: the controller
    // cannot tell a delayed frame from a withheld one.
    assert_eq!(window.accept(ReqId(15)), Err(OutOfWindow::BelowWindow));
    assert_eq!(window.accept(ReqId(10)), Err(OutOfWindow::BelowWindow));
    assert_eq!(window.accept(ReqId(0)), Err(OutOfWindow::BelowWindow));
}

#[test]
fn p_022_requests_reordered_inside_the_window_are_each_accepted_once() {
    let mut window = opened_window(1);
    // Four in flight, 2 to 5, arriving 5, 3, 2, 4.
    for id in [5, 3, 2, 4] {
        assert_eq!(window.accept(ReqId(id)), Ok(()), "{id}");
    }
    for id in 1..=5 {
        assert_eq!(window.accept(ReqId(id)), Err(OutOfWindow::Replayed), "{id}");
    }
    // A gap stays open until the band moves past it.
    assert_eq!(window.accept(ReqId(8)), Ok(()));
    assert_eq!(window.accept(ReqId(7)), Ok(()));
    assert_eq!(window.accept(ReqId(6)), Ok(()));
    // 4 is the floor of the band under 8, and was accepted.
    assert_eq!(window.accept(ReqId(4)), Err(OutOfWindow::Replayed));
    assert_eq!(window.accept(ReqId(3)), Err(OutOfWindow::BelowWindow));
}

#[test]
fn p_022_the_id_at_the_floor_is_still_remembered_when_accepted_earlier() {
    // The band is five wide: an id accepted, then the highest moved
    // four past it, is at the floor, and its replay must still be
    // caught rather than read as unseen.
    let mut window = opened_window(100);
    assert_eq!(window.accept(ReqId(104)), Ok(()));
    assert_eq!(window.accept(ReqId(100)), Err(OutOfWindow::Replayed));
    assert_eq!(window.accept(ReqId(99)), Err(OutOfWindow::BelowWindow));
}

#[test]
fn p_022_a_jump_past_the_band_forgets_everything_below_the_new_floor() {
    let mut window = opened_window(1);
    assert_eq!(window.accept(ReqId(2)), Ok(()));
    assert_eq!(window.accept(ReqId(1_000)), Ok(()));
    // Skipped ids inside the new band are unseen, and accepted.
    assert_eq!(window.accept(ReqId(996)), Ok(()));
    assert_eq!(window.accept(ReqId(995)), Err(OutOfWindow::BelowWindow));
    assert_eq!(window.accept(ReqId(2)), Err(OutOfWindow::BelowWindow));
}

#[test]
fn p_022_the_top_of_the_u32_space_does_not_wrap() {
    let mut window = opened_window(u32::MAX - 1);
    assert_eq!(window.accept(ReqId(u32::MAX)), Ok(()));
    assert_eq!(window.accept(ReqId(u32::MAX)), Err(OutOfWindow::Replayed));
    assert_eq!(window.accept(ReqId(u32::MAX - 4)), Ok(()));
    assert_eq!(
        window.accept(ReqId(u32::MAX - 5)),
        Err(OutOfWindow::BelowWindow)
    );
    // Zero after the top is an old id, not the next one.
    assert_eq!(window.accept(ReqId(0)), Err(OutOfWindow::BelowWindow));
    assert_eq!(window.accept(ReqId(1)), Err(OutOfWindow::BelowWindow));
}

#[test]
fn p_022_near_zero_the_floor_saturates_and_nothing_underflows() {
    let mut window = opened_window(0);
    assert_eq!(window.accept(ReqId(0)), Err(OutOfWindow::Replayed));
    assert_eq!(window.accept(ReqId(2)), Ok(()));
    assert_eq!(window.accept(ReqId(1)), Ok(()));
    assert_eq!(window.accept(ReqId(1)), Err(OutOfWindow::Replayed));
}
