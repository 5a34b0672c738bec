//! The rail's sequencer and the cuts it remembers.

use o89_core::body::{Body, Held, Malformed};
use o89_core::boot_count::BootCount;
use o89_core::cuts::{CarriedCuts, CutsOnPart, CutsRecord, RecentCuts};
use o89_core::rail::{
    BootLine, EnLine, Lines, ModuleBoot, ModuleReset, Plan, RailEvent, RailLine, RailSequencer,
    Recovery, CUT,
};
use o89_core::revision::Revision;
use o89_core::tick::{Millis, Tick};

/// A recovery whose count lands at once: planned and made at `now`.
fn recover(seq: &mut RailSequencer, now: Tick) -> Recovery {
    match seq.plan_recovery(now) {
        Plan::Cut(cut) => cut.make(seq, now),
        Plan::LeftOnAndRaised => Recovery::LeftOnAndRaised,
        Plan::Busy => Recovery::Busy,
    }
}

fn at(millis: u64) -> Tick {
    Tick::from_millis(millis)
}

/// What the sequencer reports between `from` and `until`, ticked one
/// millisecond at a time: up to four events, in order, `None` after.
fn run(seq: &mut RailSequencer, from: u64, until: u64) -> [Option<(u64, RailEvent)>; 4] {
    let mut events = [None; 4];
    let mut count = 0;
    for ms in from..=until {
        if let Some(event) = seq.tick(at(ms)) {
            if let Some(slot) = events.get_mut(count) {
                *slot = Some((ms, event));
            }
            count = count.saturating_add(1);
        }
    }
    assert!(count <= events.len(), "more events than the fixture holds");
    events
}

const NONE: [Option<(u64, RailEvent)>; 4] = [None; 4];

#[test]
fn f_004_en_is_held_low_from_before_the_rail_drops_until_after_it_settles() {
    let mut seq = RailSequencer::new(Revision::A);
    seq.power_on(at(0));
    run(&mut seq, 0, 200);
    assert!(seq.settled());
    // The cut: EN low in the same step the rail goes off.
    assert_eq!(
        recover(&mut seq, at(1_000)),
        Recovery::Cycling {
            count: 1,
            off_for: Millis::from_millis(CUT)
        }
    );
    assert_eq!(
        seq.lines(),
        Lines {
            rail: RailLine::Off,
            en: EnLine::HeldLow,
            boot: BootLine::Released
        }
    );
    // Through the cut and the rise, EN never leaves low while the rail
    // is off or rising.
    for ms in 1_000..=6_100 {
        seq.tick(at(ms));
        let lines = seq.lines();
        if lines.rail == RailLine::Off || !seq.settled() {
            assert_eq!(lines.en, EnLine::HeldLow, "at {ms}");
        }
    }
    // Released only once the rail has settled.
    assert!(seq.settled());
    assert_eq!(
        seq.lines(),
        Lines {
            rail: RailLine::On,
            en: EnLine::Released,
            boot: BootLine::Released
        }
    );
}

#[test]
fn f_004_at_boot_the_rail_comes_up_with_en_low_and_is_released_after_the_settle() {
    let mut seq = RailSequencer::new(Revision::A);
    assert_eq!(seq.lines().rail, RailLine::Off);
    assert!(!seq.settled());
    assert_eq!(
        seq.power_on(at(0)),
        Lines {
            rail: RailLine::On,
            en: EnLine::HeldLow,
            boot: BootLine::Released
        }
    );
    assert_eq!(run(&mut seq, 0, 99), NONE);
    assert_eq!(
        run(&mut seq, 100, 100),
        [Some((100, RailEvent::Settled)), None, None, None]
    );
    assert!(seq.settled());
    // Powering on again does nothing to a rail that is up.
    assert_eq!(seq.power_on(at(200)).en, EnLine::Released);
    // Revision B's rail is on through reset: ownership, no cut.
    let mut b = RailSequencer::new(Revision::B);
    assert!(b.settled());
    assert_eq!(b.power_on(at(0)).en, EnLine::Released);
}

#[test]
fn f_005_a_cut_on_revision_a_is_five_seconds_and_the_rail_comes_back() {
    let mut seq = RailSequencer::new(Revision::A);
    seq.power_on(at(0));
    run(&mut seq, 0, 200);
    assert!(matches!(
        recover(&mut seq, at(10_000)),
        Recovery::Cycling { .. }
    ));
    let events = run(&mut seq, 10_000, 16_000);
    assert_eq!(
        events,
        [
            Some((15_000, RailEvent::PowerCycled { count: 1 })),
            Some((15_100, RailEvent::Settled)),
            None,
            None
        ]
    );
    // Off for exactly the cut, never longer.
    assert_eq!(Millis::from_millis(CUT), Revision::A.longest_rail_off());
}

#[test]
fn f_005_the_third_cycle_in_an_hour_leaves_the_rail_on_and_raises_on_revision_a() {
    let mut seq = RailSequencer::new(Revision::A);
    seq.power_on(at(0));
    run(&mut seq, 0, 200);
    let mut now = 60_000;
    for expected in 1..=2 {
        assert_eq!(
            recover(&mut seq, at(now)),
            Recovery::Cycling {
                count: expected,
                off_for: Millis::from_millis(CUT)
            }
        );
        run(&mut seq, now, now + 6_000);
        now += 60_000;
    }
    // The third inside the hour.
    assert_eq!(
        recover(&mut seq, at(now)),
        Recovery::Cycling {
            count: 3,
            off_for: Millis::from_millis(CUT)
        }
    );
    run(&mut seq, now, now + 6_000);
    now += 60_000;
    // A fourth request inside the hour is the third rung: nothing moves.
    let before = seq.lines();
    assert_eq!(recover(&mut seq, at(now)), Recovery::LeftOnAndRaised);
    assert_eq!(seq.lines(), before);
    assert_eq!(seq.lines().rail, RailLine::On);
    assert_eq!(run(&mut seq, now, now + 1_000), NONE);
    // An hour after the first cycle it has aged out and cycling resumes.
    let later = 60_000 + 3_600_001;
    assert!(matches!(
        recover(&mut seq, at(later)),
        Recovery::Cycling { count: 3, .. }
    ));
}

#[test]
fn f_005_revision_b_executes_the_third_rung_inside_its_own_cap() {
    let mut seq = RailSequencer::new(Revision::B);
    let mut now = 60_000;
    for _ in 0..3 {
        assert!(matches!(
            recover(&mut seq, at(now)),
            Recovery::Cycling { .. }
        ));
        run(&mut seq, now, now + 6_000);
        now += 60_000;
    }
    assert_eq!(
        recover(&mut seq, at(now)),
        Recovery::Cycling {
            count: 3,
            off_for: Millis::from_millis(900_000)
        }
    );
    assert_eq!(seq.lines().rail, RailLine::Off);
}

#[test]
fn a_recovery_during_a_cut_or_a_rise_changes_nothing() {
    let mut seq = RailSequencer::new(Revision::A);
    seq.power_on(at(0));
    assert_eq!(recover(&mut seq, at(50)), Recovery::Busy);
    run(&mut seq, 0, 200);
    assert!(matches!(
        recover(&mut seq, at(1_000)),
        Recovery::Cycling { .. }
    ));
    assert_eq!(recover(&mut seq, at(2_000)), Recovery::Busy);
    assert_eq!(seq.lines().rail, RailLine::Off);
}

#[test]
fn a_module_reset_holds_en_with_the_rail_on_and_settles_when_released() {
    let mut rail = RailSequencer::new(Revision::A);
    let _ = rail.power_on(Tick::from_millis(0));
    assert_eq!(rail.tick(Tick::from_millis(100)), Some(RailEvent::Settled));
    assert_eq!(
        rail.reset_module(Tick::from_millis(1_000), ModuleBoot::Normal),
        ModuleReset::Holding
    );
    assert_eq!(
        rail.lines(),
        Lines {
            rail: RailLine::On,
            en: EnLine::HeldLow,
            boot: BootLine::Released
        }
    );
    assert_eq!(rail.tick(Tick::from_millis(1_040)), None);
    assert_eq!(
        rail.tick(Tick::from_millis(1_050)),
        Some(RailEvent::Settled)
    );
    assert_eq!(
        rail.lines(),
        Lines {
            rail: RailLine::On,
            en: EnLine::Released,
            boot: BootLine::Released
        }
    );
}

#[test]
fn a_strapped_reset_holds_the_boot_line_low_across_the_reset_and_releases_it_after() {
    let mut rail = RailSequencer::new(Revision::A);
    let _ = rail.power_on(Tick::from_millis(0));
    assert_eq!(rail.tick(Tick::from_millis(100)), Some(RailEvent::Settled));
    assert_eq!(rail.lines().boot, BootLine::Released, "a normal boot");
    assert_eq!(
        rail.reset_module(Tick::from_millis(1_000), ModuleBoot::Download),
        ModuleReset::Holding
    );
    assert_eq!(
        rail.lines(),
        Lines {
            rail: RailLine::On,
            en: EnLine::HeldLow,
            boot: BootLine::HeldLow,
        },
        "the strap is low before the reset lets go"
    );
    // `EN` released, the strap still low for the ROM to read: settled
    // for the link, which builds its UART in time for the ROM's banner.
    assert_eq!(
        rail.tick(Tick::from_millis(1_050)),
        Some(RailEvent::Settled)
    );
    assert!(rail.settled());
    assert_eq!(
        rail.lines(),
        Lines {
            rail: RailLine::On,
            en: EnLine::Released,
            boot: BootLine::HeldLow,
        }
    );
    assert!(matches!(
        recover(&mut rail, Tick::from_millis(1_060)),
        Recovery::Busy
    ));
    assert_eq!(rail.tick(Tick::from_millis(1_140)), None);
    assert_eq!(rail.tick(Tick::from_millis(1_150)), None);
    assert_eq!(
        rail.lines(),
        Lines {
            rail: RailLine::On,
            en: EnLine::Released,
            boot: BootLine::Released,
        },
        "released once read"
    );
    // A normal reset after it never touches the strap.
    let _ = rail.reset_module(Tick::from_millis(2_000), ModuleBoot::Normal);
    assert_eq!(rail.lines().boot, BootLine::Released);
    let _ = rail.tick(Tick::from_millis(2_050));
    assert_eq!(rail.lines().boot, BootLine::Released);
}

#[test]
fn f_004_a_reset_asked_while_the_rail_settles_never_releases_en_early() {
    let mut rail = RailSequencer::new(Revision::A);
    let _ = rail.power_on(Tick::from_millis(0));
    // Ten milliseconds into the rail's settling, a reset for download.
    assert_eq!(
        rail.reset_module(Tick::from_millis(10), ModuleBoot::Download),
        ModuleReset::Holding
    );
    assert_eq!(rail.lines().en, EnLine::HeldLow);
    // Its own fifty milliseconds would end at 60; the rail settles at 100.
    assert_eq!(rail.tick(Tick::from_millis(60)), None);
    assert_eq!(rail.lines().en, EnLine::HeldLow, "EN still held at 60 ms");
    assert_eq!(rail.tick(Tick::from_millis(99)), None);
    assert_eq!(
        rail.tick(Tick::from_millis(100)),
        Some(RailEvent::Settled),
        "released with the settling, strap still low"
    );
    assert_eq!(rail.lines().boot, BootLine::HeldLow);
    // Late in the settling, the reset's own hold is the later deadline.
    let mut late = RailSequencer::new(Revision::A);
    let _ = late.power_on(Tick::from_millis(0));
    let _ = late.reset_module(Tick::from_millis(90), ModuleBoot::Normal);
    assert_eq!(late.tick(Tick::from_millis(100)), None);
    assert_eq!(late.tick(Tick::from_millis(140)), Some(RailEvent::Settled));
}

#[test]
fn a_module_reset_with_the_rail_off_or_cut_resets_nothing_and_counts_no_cycle() {
    let mut rail = RailSequencer::new(Revision::A);
    assert_eq!(
        rail.reset_module(Tick::from_millis(0), ModuleBoot::Normal),
        ModuleReset::NotPowered
    );
    let _ = rail.power_on(Tick::from_millis(0));
    let _ = rail.tick(Tick::from_millis(100));
    let cycling = recover(&mut rail, Tick::from_millis(200));
    assert!(matches!(cycling, Recovery::Cycling { count: 1, .. }));
    assert_eq!(
        rail.reset_module(Tick::from_millis(300), ModuleBoot::Normal),
        ModuleReset::NotPowered
    );
    // The reset is not a rail cycle: the ladder's count does not move.
    let _ = rail.tick(Tick::from_millis(5_200));
    let _ = rail.tick(Tick::from_millis(5_300));
    assert_eq!(
        rail.reset_module(Tick::from_millis(6_000), ModuleBoot::Normal),
        ModuleReset::Holding
    );
    let _ = rail.tick(Tick::from_millis(6_050));
    assert!(matches!(
        recover(&mut rail, Tick::from_millis(7_000)),
        Recovery::Cycling { count: 2, .. }
    ));
}

/// A sequencer on `revision` at the start of a boot that carries
/// `kept`, powered and settled.
fn booted(revision: Revision, kept: RecentCuts) -> RailSequencer {
    carried(
        revision,
        CarriedCuts {
            cuts: kept.rebased(),
            missed: 0,
        },
    )
}

/// A sequencer on `revision` at the start of a boot that carries
/// `carried`, powered and settled.
fn carried(revision: Revision, carried: CarriedCuts) -> RailSequencer {
    let mut seq = RailSequencer::new(revision);
    seq.carry(carried, at(0));
    let _ = seq.power_on(at(0));
    let _ = run(&mut seq, 0, 200);
    seq
}

#[test]
fn f_017_the_third_rung_is_reached_across_controller_resets() {
    // Revision B keeps its rail through a reset, so only the ladder's
    // own cuts count, one a boot, each boot starting from what the part
    // kept.
    let mut kept = RecentCuts::none();
    for boot in 1..=3u8 {
        let mut seq = booted(Revision::B, kept);
        let Recovery::Cycling { count, off_for } = recover(&mut seq, at(60_000)) else {
            panic!("boot {boot}: a cut");
        };
        assert_eq!(count, boot, "the count carries across the reset");
        assert_eq!(off_for, Millis::from_millis(CUT));
        kept = seq.recent_cuts(at(60_000));
    }
    let mut seq = booted(Revision::B, kept);
    let Recovery::Cycling { off_for, .. } = recover(&mut seq, at(60_000)) else {
        panic!("the third rung cuts on revision B");
    };
    assert_eq!(
        off_for,
        Millis::from_millis(900_000),
        "the fifteen minutes"
    );
}

#[test]
fn f_017_a_carried_cut_expires_an_hour_into_the_boot_that_carried_it() {
    let seq = booted(Revision::B, RecentCuts::full());
    assert_eq!(seq.recent_cuts(at(3_600_000)).count(), 3);
    assert_eq!(seq.recent_cuts(at(3_600_001)), RecentCuts::none());
}

fn boot(count: u32) -> BootCount {
    BootCount::decode(&count.to_le_bytes()).expect("not zero")
}

#[test]
fn f_017_a_record_that_does_not_read_counts_as_the_full_ladder() {
    assert_eq!(
        CutsRecord::carried(&Held::Corrupt, boot(9)),
        CarriedCuts::full()
    );
    assert_eq!(
        CutsRecord::carried(&Held::Malformed(Malformed { at: 0 }), boot(9)),
        CarriedCuts::full()
    );
    let one = RecentCuts(Some(at(7)), None, None);
    let record = CutsRecord {
        boot: Some(boot(8)),
        cuts: one,
    };
    assert_eq!(
        CutsRecord::carried(&Held::Present(record), boot(9)),
        CarriedCuts {
            cuts: one.rebased(),
            missed: 0
        }
    );
    // Full, a revision A boot's first request is the third rung.
    let mut seq = carried(Revision::A, CutsRecord::carried(&Held::Corrupt, boot(9)));
    assert_eq!(recover(&mut seq, at(60_000)), Recovery::LeftOnAndRaised);
}

#[test]
fn f_018_a_record_counts_the_boots_since_it_was_written_and_one_that_names_a_later_boot_is_full()
 {
    let none_at = |kept_at: Option<BootCount>| {
        Held::Present(CutsRecord {
            boot: kept_at,
            cuts: RecentCuts::none(),
        })
    };
    let missed = |held: &Held<CutsRecord>, count: u32| CutsRecord::carried(held, boot(count));
    // Written at boot 5: boots 6 and 7 wrote nothing that landed.
    assert_eq!(missed(&none_at(Some(boot(5))), 8).missed, 2);
    // Written by a boot whose own count did not land, under the count
    // before it, which this boot takes again.
    assert_eq!(missed(&none_at(Some(boot(5))), 6).missed, 0);
    // Never written: every boot before this one missed it; a fresh
    // unit's first boot missed none.
    assert_eq!(
        missed(&Held::Absent, 1),
        CarriedCuts {
            cuts: RecentCuts::none(),
            missed: 0
        }
    );
    assert_eq!(missed(&Held::Absent, 4).missed, 3);
    assert_eq!(missed(&none_at(None), 3).missed, 2);
    // A record from this boot's count or a later one: the counts
    // disagree, and the ladder is full.
    assert_eq!(missed(&none_at(Some(boot(6))), 6), CarriedCuts::full());
    assert_eq!(missed(&none_at(Some(boot(9))), 6), CarriedCuts::full());
}

#[test]
fn f_018_on_revision_a_every_boot_the_record_missed_is_a_cut() {
    // Two boots whose writes never landed, then this one: the third
    // rung at the first request.
    let carried_cuts = CarriedCuts {
        cuts: RecentCuts::none(),
        missed: 2,
    };
    let mut seq = carried(Revision::A, carried_cuts);
    assert_eq!(seq.recent_cuts(at(0)).count(), 3);
    assert_eq!(recover(&mut seq, at(60_000)), Recovery::LeftOnAndRaised);
    // Revision B keeps its rail through a reset: no boot is a cut.
    let seq = carried(Revision::B, carried_cuts);
    assert_eq!(seq.recent_cuts(at(0)), RecentCuts::none());
    // However many were missed, the ladder holds three.
    let seq = carried(
        Revision::A,
        CarriedCuts {
            cuts: RecentCuts::none(),
            missed: u32::MAX,
        },
    );
    assert_eq!(seq.recent_cuts(at(0)).count(), 3);
}

#[test]
fn f_017_the_cuts_round_trip_through_their_record_and_a_count_past_three_is_refused() {
    for cuts in [
        RecentCuts::none(),
        RecentCuts(Some(at(1_000)), None, None),
        RecentCuts(Some(at(1)), Some(at(2)), Some(at(u64::MAX))),
    ] {
        for kept_at in [None, Some(BootCount::first()), Some(boot(u32::MAX))] {
            let record = CutsRecord {
                boot: kept_at,
                cuts,
            };
            assert_eq!(CutsRecord::decode(&record.encode()), Ok(record));
        }
    }
    let mut bytes = CutsRecord {
        boot: Some(boot(3)),
        cuts: RecentCuts::full(),
    }
    .encode();
    bytes[4] = 4;
    assert_eq!(CutsRecord::decode(&bytes), Err(Malformed { at: 4 }));
}

#[test]
fn f_017_a_boot_carries_every_cut_as_made_at_its_start_and_keeps_them_oldest_first() {
    let cuts = RecentCuts(Some(at(5_000)), Some(at(900)), None);
    assert_eq!(
        cuts.rebased(),
        RecentCuts(Some(Tick::zero()), Some(Tick::zero()), None)
    );
    let mut seq = booted(Revision::B, RecentCuts::none());
    let _ = recover(&mut seq, at(5_000));
    let _ = run(&mut seq, 5_001, 10_200);
    let _ = recover(&mut seq, at(20_000));
    assert_eq!(
        seq.recent_cuts(at(20_000)),
        RecentCuts(Some(at(5_000)), Some(at(20_000)), None)
    );
}

#[test]
fn f_018_on_revision_a_the_reset_that_began_a_boot_is_a_cut() {
    let mut kept = RecentCuts::none();
    for boot in 1..=3usize {
        let seq = booted(Revision::A, kept);
        kept = seq.recent_cuts(at(0));
        assert_eq!(kept.count(), boot);
    }
    // Three resets inside the hour: the ladder's first request on the
    // next boot is the third rung, which revision A does not execute.
    let mut seq = booted(Revision::A, kept);
    assert_eq!(recover(&mut seq, at(60_000)), Recovery::LeftOnAndRaised);
}

#[test]
fn f_018_revision_b_keeps_its_rail_through_a_reset_and_counts_no_cut_for_it() {
    let seq = booted(Revision::B, RecentCuts::none());
    assert_eq!(seq.recent_cuts(at(0)), RecentCuts::none());
}

#[test]
fn l_111_the_rail_is_off_for_the_whole_cut_from_when_its_lines_move() {
    let mut seq = booted(Revision::B, RecentCuts::none());
    let Plan::Cut(cut) = seq.plan_recovery(at(1_000)) else {
        panic!("a cut");
    };
    // The count took a second and a half to land; the lines move then.
    assert!(matches!(
        cut.make(&mut seq, at(2_500)),
        Recovery::Cycling { count: 1, .. }
    ));
    assert_eq!(run(&mut seq, 2_501, 7_499), [None; 4], "still off");
    assert_eq!(
        run(&mut seq, 7_500, 7_500)[0],
        Some((7_500, RailEvent::PowerCycled { count: 1 }))
    );
}

#[test]
fn l_112_a_cut_counts_for_the_hour_from_when_its_lines_moved() {
    let mut seq = booted(Revision::B, RecentCuts::none());
    let Plan::Cut(cut) = seq.plan_recovery(at(1_000)) else {
        panic!("a cut");
    };
    // Kept as planned at the request; made when the count landed.
    assert_eq!(cut.cuts(), RecentCuts(Some(at(1_000)), None, None));
    let _ = cut.make(&mut seq, at(2_500));
    assert_eq!(
        seq.recent_cuts(at(3_601_000)).count(),
        1,
        "an hour from the request"
    );
    assert_eq!(
        seq.recent_cuts(at(3_602_500)).count(),
        1,
        "an hour from the lines"
    );
    assert_eq!(seq.recent_cuts(at(3_602_501)), RecentCuts::none());
}

#[test]
fn f_017_a_planned_cut_moves_nothing_until_it_is_made_and_keeps_the_count_it_makes() {
    let mut seq = booted(Revision::B, RecentCuts::none());
    let before = seq;
    let Plan::Cut(cut) = seq.plan_recovery(at(1_000)) else {
        panic!("a cut");
    };
    // Planned: the rail on, no cut counted, and the count to keep is
    // the one the cut will make.
    assert_eq!(seq, before);
    assert_eq!(seq.lines().rail, RailLine::On);
    assert_eq!(seq.recent_cuts(at(1_000)), RecentCuts::none());
    assert_eq!(cut.cuts(), RecentCuts(Some(at(1_000)), None, None));
    assert_eq!(
        cut.make(&mut seq, at(1_000)),
        Recovery::Cycling {
            count: 1,
            off_for: Millis::from_millis(CUT)
        }
    );
    assert_eq!(seq.lines().rail, RailLine::Off);
    assert_eq!(
        seq.recent_cuts(at(1_000)),
        RecentCuts(Some(at(1_000)), None, None),
        "what was kept is what the sequencer counts"
    );
}

#[test]
fn f_017_a_cut_planned_before_a_module_reset_is_not_made_after_it() {
    let mut seq = booted(Revision::B, RecentCuts::none());
    let Plan::Cut(cut) = seq.plan_recovery(at(1_000)) else {
        panic!("a cut");
    };
    // A download's reset is served while the count goes out.
    assert_eq!(
        seq.reset_module(at(1_020), ModuleBoot::Download),
        ModuleReset::Holding
    );
    let reset = seq;
    assert_eq!(cut.make(&mut seq, at(1_500)), Recovery::Deferred);
    assert_eq!(seq, reset, "the reset stands, strap and all");
    assert_eq!(
        seq.recent_cuts(at(1_500)),
        RecentCuts::none(),
        "no cut counted"
    );
    assert_eq!(seq.lines().rail, RailLine::On);
}

#[test]
fn f_017_a_plan_that_moves_nothing_needs_no_count_kept() {
    // During a cut, and at a third rung revision A does not execute:
    // nothing to keep, and the answer at once.
    let mut seq = booted(Revision::A, RecentCuts::none());
    assert!(matches!(
        recover(&mut seq, at(60_000)),
        Recovery::Cycling { count: 2, .. }
    ));
    assert_eq!(seq.plan_recovery(at(60_020)), Plan::Busy);
    let full = booted(Revision::A, RecentCuts::full());
    assert_eq!(full.plan_recovery(at(60_000)), Plan::LeftOnAndRaised);
}

#[test]
fn f_017_the_cuts_go_to_the_part_when_they_differ_from_what_it_is_known_to_hold() {
    let one = RecentCuts(Some(at(1)), None, None);
    let mut part = CutsOnPart::read(RecentCuts::none());
    assert!(!part.due(RecentCuts::none(), at(0)));
    assert!(part.due(one, at(0)));
    part.landed(one);
    assert!(!part.due(one, at(10)));
}

#[test]
fn f_017_after_a_write_that_did_not_land_the_cuts_go_out_again_a_retry_later() {
    let one = RecentCuts(Some(at(1)), None, None);
    let mut part = CutsOnPart::read(RecentCuts::none());
    // A late write of a planned cut that was then not made: the part
    // may hold it, so the count this boot holds, none, goes out again.
    part.unknown(at(100));
    assert!(
        !part.due(RecentCuts::none(), at(1_099)),
        "not before the retry"
    );
    assert!(part.due(RecentCuts::none(), at(1_100)), "even the same cuts");
    part.landed(RecentCuts::none());
    assert!(!part.due(RecentCuts::none(), at(1_200)));
    assert!(part.due(one, at(1_200)));
}

#[test]
fn the_cuts_counted_are_the_latest_three_of_the_hour() {
    let mut sequencer = RailSequencer::new(Revision::B);
    let minutes = |n: u64| Tick::from_millis(n * 60_000);
    for n in [1, 5, 9, 20, 50] {
        sequencer.remember_cut(minutes(n));
    }
    let kept = sequencer.recent_cuts(minutes(60));
    assert_eq!(
        kept,
        RecentCuts(Some(minutes(9)), Some(minutes(20)), Some(minutes(50)))
    );
    // The hour is inclusive, and what is older than it is not counted.
    assert_eq!(sequencer.recent_cuts(minutes(69)).count(), 3);
    assert_eq!(
        sequencer.recent_cuts(minutes(70)),
        RecentCuts(Some(minutes(20)), Some(minutes(50)), None)
    );
}
