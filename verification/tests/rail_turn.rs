//! The rail's turns: a cut is made on the turn its count lands.

use o89_core::cuts::{CarriedCuts, CutsOnPart, RecentCuts, KEEP_RETRY};
use o89_core::rail::{BootLine, ModuleBoot, ModuleReset, RailLine, RailSequencer, Recovery, CUT};
use o89_core::rail_turn::{Keep, NotKept, Rail, RailRequest};
use o89_core::revision::Revision;
use o89_core::tick::{Millis, Tick};

fn one_at(at: Tick) -> RecentCuts {
    RecentCuts(Some(at), None, None)
}

fn at(millis: u64) -> Tick {
    Tick::from_millis(millis)
}

/// A revision B rail, settled, whose part holds no cut.
fn rail() -> Rail {
    let mut seq = RailSequencer::new(Revision::B);
    seq.carry(
        CarriedCuts {
            cuts: RecentCuts::none(),
            missed: 0,
        },
        at(0),
    );
    let _ = seq.power_on(at(0));
    Rail::new(seq, Some(CutsOnPart::read(RecentCuts::none())))
}

/// Asked to recover at `now`: the count handed out and the cut waiting.
fn asked(rail: &mut Rail, now: u64) -> RecentCuts {
    let turn = rail.turn(at(now), Some(RailRequest::Recover), None);
    assert_eq!(turn.recovered, None, "nothing moves before the count lands");
    let Some(Keep::Cut(cuts)) = turn.keep else {
        panic!("the count goes out: {turn:?}");
    };
    cuts
}

#[test]
fn f_017_a_cut_is_made_on_the_turn_its_count_lands_and_its_instant_is_then_rewritten() {
    let mut rail = rail();
    let cuts = asked(&mut rail, 1_000);
    assert_eq!(cuts, one_at(at(1_000)));
    assert_eq!(rail.lines().rail, RailLine::On);
    let turn = rail.turn(at(1_020), None, None);
    assert_eq!((turn.recovered, turn.keep), (None, None), "still waiting");
    let turn = rail.turn(at(1_500), None, Some((Keep::Cut(cuts), Ok(()))));
    assert_eq!(
        turn.recovered,
        Some(Recovery::Cycling {
            count: 1,
            off_for: Millis::from_millis(CUT)
        })
    );
    assert_eq!(rail.lines().rail, RailLine::Off);
    // The cut counts from when its lines moved, which the part
    // is told next.
    assert_eq!(
        turn.keep,
        Some(Keep::Changed(one_at(at(1_500))))
    );
}

#[test]
fn f_017_a_module_reset_asked_as_the_count_lands_is_served_and_the_cut_is_not_made() {
    let mut rail = rail();
    let cuts = asked(&mut rail, 1_000);
    let turn = rail.turn(
        at(1_020),
        Some(RailRequest::ResetModule(ModuleBoot::Download)),
        Some((Keep::Cut(cuts), Ok(()))),
    );
    assert_eq!(turn.reset, Some(ModuleReset::Holding));
    assert_eq!(turn.recovered, Some(Recovery::Deferred));
    assert_eq!(rail.lines().rail, RailLine::On);
    assert_eq!(rail.lines().boot, BootLine::HeldLow, "the download's strap");
    // The part holds a cut that was never made; the count this boot
    // holds goes back out.
    assert_eq!(turn.keep, Some(Keep::Changed(RecentCuts::none())));
}

#[test]
fn f_017_a_module_reset_while_the_count_goes_out_drops_the_cut_and_its_late_answer_moves_nothing()
 {
    let mut rail = rail();
    let cuts = asked(&mut rail, 1_000);
    let turn = rail.turn(
        at(1_020),
        Some(RailRequest::ResetModule(ModuleBoot::Normal)),
        None,
    );
    assert_eq!(turn.reset, Some(ModuleReset::Holding));
    assert_eq!(turn.recovered, Some(Recovery::Deferred));
    assert_eq!(turn.keep, None, "the cut's count is still in flight");
    let turn = rail.turn(at(1_100), None, Some((Keep::Cut(cuts), Ok(()))));
    assert_eq!(turn.recovered, None);
    assert_eq!(rail.lines().rail, RailLine::On);
    assert_eq!(turn.keep, Some(Keep::Changed(RecentCuts::none())));
}

#[test]
fn f_017_a_count_that_does_not_land_defers_the_cut_and_the_part_is_rewritten_a_retry_later() {
    let mut rail = rail();
    let cuts = asked(&mut rail, 1_000);
    let turn = rail.turn(at(3_000), None, Some((Keep::Cut(cuts), Err(NotKept::Late))));
    assert_eq!(turn.recovered, Some(Recovery::Deferred));
    assert_eq!(rail.lines().rail, RailLine::On);
    assert_eq!(turn.keep, None, "not before the retry");
    let retry = at(3_000).after(Millis::from_millis(KEEP_RETRY)).expect("fits").as_millis();
    let turn = rail.turn(at(retry), None, None);
    assert_eq!(turn.keep, Some(Keep::Changed(RecentCuts::none())));
}

#[test]
fn f_017_a_second_recovery_while_a_cut_waits_is_the_same_request() {
    let mut rail = rail();
    let cuts = asked(&mut rail, 1_000);
    let turn = rail.turn(at(1_020), Some(RailRequest::Recover), None);
    assert_eq!((turn.recovered, turn.keep), (None, None));
    let turn = rail.turn(
        at(1_040),
        Some(RailRequest::Recover),
        Some((Keep::Cut(cuts), Ok(()))),
    );
    assert!(matches!(
        turn.recovered,
        Some(Recovery::Cycling { count: 1, .. })
    ));
}

#[test]
fn f_017_an_answer_to_another_keep_is_never_taken_for_the_cuts() {
    let mut rail = rail();
    let _ = asked(&mut rail, 1_000);
    let turn = rail.turn(
        at(1_020),
        None,
        Some((Keep::Changed(RecentCuts::none()), Ok(()))),
    );
    assert_eq!(turn.recovered, None);
    assert_eq!(rail.lines().rail, RailLine::On);
    assert_eq!(turn.keep, None, "nothing else starts while a cut waits");
}

#[test]
fn f_017_a_boot_with_no_store_defers_the_cut_it_cannot_keep() {
    let mut seq = RailSequencer::new(Revision::B);
    let _ = seq.power_on(at(0));
    let mut rail = Rail::new(seq, None);
    let cuts = asked(&mut rail, 1_000);
    let turn = rail.turn(
        at(1_020),
        None,
        Some((Keep::Cut(cuts), Err(NotKept::NoStore))),
    );
    assert_eq!(turn.recovered, Some(Recovery::Deferred));
    assert_eq!(rail.lines().rail, RailLine::On);
    assert_eq!(turn.keep, None, "nowhere to keep anything");
}

#[test]
fn f_017_a_recovery_that_moves_nothing_is_answered_at_once_with_nothing_to_keep() {
    let mut rail = rail();
    let cuts = asked(&mut rail, 1_000);
    let _ = rail.turn(at(1_020), None, Some((Keep::Cut(cuts), Ok(()))));
    let turn = rail.turn(at(1_040), Some(RailRequest::Recover), None);
    assert_eq!(turn.recovered, Some(Recovery::Busy));
}
