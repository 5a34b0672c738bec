//! Who has checked in, and whether the watchdog is fed.

use o89_core::rollcall::{Blame, Feed, Rollcall, Task, TASKS};
use o89_core::tick::{Millis, Tick};

fn at(millis: u64) -> Tick {
    Tick::from_millis(millis)
}

#[test]
fn f_007_the_feed_is_earned_only_while_every_task_on_the_roll_is_inside_its_window() {
    let mut roll = Rollcall::new();
    roll.check_in(Task::Supervisor, at(0));
    roll.check_in(Task::OneWire, at(0));
    assert_eq!(roll.verdict(at(4_000)), Feed::Earned);
    // The supervisor's window is 5 s; at exactly 5 s it is still inside.
    assert_eq!(roll.verdict(at(5_000)), Feed::Earned);
    // One millisecond past it, the feed is withheld and the name is
    // the supervisor's, with how far past the window it is.
    assert_eq!(
        roll.verdict(at(5_001)),
        Feed::Withheld(Blame {
            task: Task::Supervisor,
            overdue: Millis::from_millis(1),
        })
    );
    // A check-in earns it back.
    roll.check_in(Task::Supervisor, at(5_001));
    assert_eq!(roll.verdict(at(5_001)), Feed::Earned);
}

#[test]
fn f_007_the_first_late_task_on_the_roll_is_the_one_named() {
    let mut roll = Rollcall::new();
    roll.check_in(Task::Control, at(0));
    roll.check_in(Task::Adc, at(0));
    // Both late: Control (5 s) and Adc (15 s). Control comes first.
    assert_eq!(
        roll.verdict(at(20_000)),
        Feed::Withheld(Blame {
            task: Task::Control,
            overdue: Millis::from_millis(15_000),
        })
    );
    // Only Adc late, once Control has checked in.
    roll.check_in(Task::Control, at(20_000));
    assert_eq!(
        roll.verdict(at(20_000)),
        Feed::Withheld(Blame {
            task: Task::Adc,
            overdue: Millis::from_millis(5_000),
        })
    );
}

#[test]
fn f_007_nobody_on_the_roll_is_not_health() {
    let roll = Rollcall::new();
    assert_eq!(roll.verdict(at(0)), Feed::NobodyOnTheRoll);
    assert_eq!(roll.verdict(at(1_000_000)), Feed::NobodyOnTheRoll);
    let mut retired = Rollcall::new();
    retired.check_in(Task::Can, at(0));
    retired.retire(Task::Can);
    assert_eq!(retired.verdict(at(60_000)), Feed::NobodyOnTheRoll);
}

#[test]
fn f_007_a_retired_task_is_not_waited_for_and_a_returning_one_is() {
    let mut roll = Rollcall::new();
    roll.check_in(Task::Supervisor, at(0));
    roll.check_in(Task::VeDirectOne, at(0));
    roll.retire(Task::VeDirectOne);
    roll.check_in(Task::Supervisor, at(30_000));
    assert_eq!(roll.verdict(at(30_000)), Feed::Earned);
    // A port that came back is on the roll again from that moment.
    roll.check_in(Task::VeDirectOne, at(30_000));
    roll.check_in(Task::Supervisor, at(46_000));
    assert_eq!(
        roll.verdict(at(46_000)),
        Feed::Withheld(Blame {
            task: Task::VeDirectOne,
            overdue: Millis::from_millis(1_000),
        })
    );
}

#[test]
fn a_check_in_from_the_future_is_not_late() {
    let mut roll = Rollcall::new();
    roll.check_in(Task::Lamp, at(10_000));
    assert_eq!(roll.verdict(at(9_000)), Feed::Earned);
}

#[test]
fn every_task_has_a_window_and_survives_the_round_trip_through_its_index() {
    for task in Task::all() {
        assert!(task.window() > Millis::zero(), "{task:?}");
        assert_eq!(Task::from_index(task.index()), Some(task));
    }
    assert_eq!(Task::from_index(u32::try_from(TASKS).expect("fits")), None);
}

#[test]
fn a_check_in_before_a_task_is_retired_leaves_no_trace() {
    let mut roll = Rollcall::new();
    roll.check_in(Task::Adc, at(0));
    let mut retired = roll;
    retired.retire(Task::Supervisor);
    roll.check_in(Task::Supervisor, at(5));
    assert_eq!(roll.verdict(at(5_005)), Feed::Earned);
    assert!(matches!(roll.verdict(at(5_006)), Feed::Withheld(b) if b.task == Task::Supervisor));
    roll.retire(Task::Supervisor);
    assert_eq!(roll, retired);
    roll.retire(Task::Adc);
    assert_eq!(roll.verdict(at(60_000)), Feed::NobodyOnTheRoll);
}
