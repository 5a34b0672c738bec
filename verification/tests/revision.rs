//! What each revision of the board allows.

use o89_core::revision::{RailThroughReset, Revision, StopMode, ThirdRung};
use o89_core::tick::Millis;

#[test]
fn f_005_revision_a_never_leaves_the_rail_off_longer_than_five_seconds() {
    assert_eq!(Revision::A.longest_rail_off(), Millis::from_millis(5_000));
    // The rung the ladder asks for is longer than the cap, so it is not
    // executed: the rail stays on and the concern is raised instead.
    assert_eq!(Revision::A.third_rung(), ThirdRung::LeaveOnAndRaise);
}

#[test]
fn f_005_revision_b_runs_the_full_ladder_inside_its_own_bound() {
    let ThirdRung::Cut(cut) = Revision::B.third_rung() else {
        panic!("revision B executes the rung");
    };
    assert_eq!(cut, Millis::from_millis(900_000));
    assert!(cut <= Revision::B.longest_rail_off());
}

#[test]
fn f_005_no_revision_cuts_the_rail_longer_than_it_allows() {
    for revision in [Revision::A, Revision::B] {
        match revision.third_rung() {
            ThirdRung::Cut(cut) => assert!(cut <= revision.longest_rail_off()),
            ThirdRung::LeaveOnAndRaise => {}
        }
    }
}

#[test]
fn f_012_revision_a_forbids_stop_mode_and_b_allows_it() {
    assert_eq!(Revision::A.stop_mode(), StopMode::Forbidden);
    assert_eq!(Revision::B.stop_mode(), StopMode::Allowed);
}

#[test]
fn f_014_the_rail_is_off_through_a_reset_on_a_and_on_through_one_on_b() {
    assert_eq!(Revision::A.rail_through_reset(), RailThroughReset::Off);
    assert_eq!(Revision::B.rail_through_reset(), RailThroughReset::On);
}
