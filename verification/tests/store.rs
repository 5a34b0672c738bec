//! A boot over what the part holds: what it writes, in which order, and what
//! it reports.

use o89_core::body::{Held, Malformed, Refused};
use o89_core::boot_count::BootCount;
use o89_core::cuts::{CarriedCuts, CutsRecord, RecentCuts};
use o89_core::idents::{Epoch, Generation};
use o89_core::rail::{Plan, RailSequencer};
use o89_core::release::{CommsRelease, Digest, Release};
use o89_core::revision::Revision;
use o89_core::secret::{ControllerKey, Secret};
use o89_core::store::{
    restart_windows, BootAction, BootEvent, BootReport, EnrolmentAtBoot, EpochAtBoot, NoEpoch,
    PanicRecorded, Repair, Repaired, Store, Unrepaired,
};
use o89_core::text::Text;
use o89_core::tick::Tick;

/// Where a panic was.
type Words = (u32, u32);

/// A slot of the client table: the epoch and the generation it was written
/// under.
#[derive(Clone, Copy, PartialEq, Eq, Debug)]
struct Slot {
    epoch: Epoch,
    generation: Generation,
}

/// The client table and the dedup entries beside it.
#[derive(Clone)]
struct Table {
    slots: [Option<Slot>; 8],
    slot_damaged: bool,
    mark_damaged: bool,
    dedup_epoch: Epoch,
    /// When each live entry was inserted.
    dedup: Vec<Tick>,
}

/// A part that holds every record the boot reads.
#[derive(Clone)]
struct Part {
    secret: Held<Secret>,
    controller: Held<ControllerKey>,
    epoch: Held<Epoch>,
    boots: Held<BootCount>,
    release: Held<CommsRelease>,
    cuts: Held<CutsRecord>,
    panic: Option<(u32, Words)>,
    table: Option<Table>,
    falling: bool,
    /// The power goes once a repair has moved the epoch.
    cut_in_repair: bool,
}

impl Part {
    fn fresh() -> Self {
        Part {
            secret: Held::Absent,
            controller: Held::Absent,
            epoch: Held::Absent,
            boots: Held::Absent,
            release: Held::Absent,
            cuts: Held::Absent,
            panic: None,
            table: None,
            falling: false,
            cut_in_repair: false,
        }
    }

    fn store(&self) -> Store {
        Store {
            secret: self.secret,
            controller: self.controller,
            epoch: self.epoch,
            run: Held::Absent,
            boots: self.boots,
            release: self.release,
            cuts: self.cuts,
        }
    }

    fn write(&self) -> Result<(), Refused> {
        if self.falling {
            Err(Refused::SupplyFalling)
        } else {
            Ok(())
        }
    }

    fn enrolled(&self, under: Epoch) -> usize {
        self.table.as_ref().map_or(0, |table| {
            table
                .slots
                .iter()
                .flatten()
                .filter(|slot| slot.epoch == under)
                .count()
        })
    }

    /// The highest epoch a slot was written under.
    fn table_epoch(&self) -> Option<Epoch> {
        let table = self.table.as_ref()?;
        table
            .slots
            .iter()
            .flatten()
            .map(|slot| slot.epoch)
            .max_by_key(|epoch| epoch.get())
    }

    fn repair(&mut self) -> Repair {
        let Held::Present(under) = self.epoch else {
            return Repair::Failed(Unrepaired::NoEpoch);
        };
        let refused = self.write();
        let Some(table) = self.table.as_mut() else {
            if let Err(why) = refused {
                return Repair::Failed(Unrepaired::Write(why));
            }
            self.table = Some(Table {
                slots: [None; 8],
                slot_damaged: false,
                mark_damaged: false,
                dedup_epoch: under,
                dedup: Vec::new(),
            });
            return Repair::Done(Repaired::Initialised);
        };
        if table.mark_damaged {
            if let Err(why) = refused {
                return Repair::Failed(Unrepaired::Epoch(why));
            }
            let next = Epoch::new(under.get() + 1).expect("climbs");
            self.epoch = Held::Present(next);
            if self.cut_in_repair {
                return Repair::Failed(Unrepaired::Write(Refused::Bus));
            }
            table.mark_damaged = false;
            table.slots = [None; 8];
            table.dedup.clear();
            table.dedup_epoch = next;
            return Repair::Done(Repaired::Rebuilt(next));
        }
        if table.dedup_epoch != under {
            if let Err(why) = refused {
                return Repair::Failed(Unrepaired::Write(why));
            }
            table.dedup_epoch = under;
            table.dedup.clear();
        }
        if table.slot_damaged {
            if let Err(why) = refused {
                return Repair::Failed(Unrepaired::Write(why));
            }
            table.slot_damaged = false;
            table.slots = [None; 8];
            return Repair::Done(Repaired::Freed);
        }
        Repair::Done(Repaired::Nothing)
    }

    /// The dedup windows restart at the boot's tick zero.
    fn restart_commands(&mut self) {
        if let Some(table) = self.table.as_mut() {
            for inserted in &mut table.dedup {
                *inserted = Tick::zero();
            }
        }
    }

    /// How many dedup entries are inside their ten minutes.
    fn live(&self, now: Tick) -> usize {
        self.table.as_ref().map_or(0, |table| {
            table
                .dedup
                .iter()
                .filter(|at| now.since(**at).is_some_and(|age| age.as_millis() < 600_000))
                .count()
        })
    }
}

fn boot(part: &mut Part, words: Option<Words>) -> (Store, BootReport) {
    let mut booting = Store::boot(part.store(), part.table_epoch(), words.is_some());
    loop {
        let landed = match part.write() {
            Ok(()) => BootEvent::Landed,
            Err(why) => BootEvent::NotLanded(why),
        };
        let event = match booting.action() {
            BootAction::WriteEpoch(epoch) => {
                if landed == BootEvent::Landed {
                    part.epoch = Held::Present(epoch);
                }
                landed
            }
            BootAction::RepairClients => {
                let repair = part.repair();
                part.restart_commands();
                let enrolled = match part.epoch {
                    Held::Present(under) => part.enrolled(under),
                    _ => 0,
                };
                BootEvent::Repaired {
                    repair,
                    epoch: part.epoch,
                    enrolled,
                }
            }
            BootAction::RestartCommands => {
                part.restart_commands();
                BootEvent::Landed
            }
            BootAction::WriteBootCount(count) => {
                if landed == BootEvent::Landed {
                    part.boots = Held::Present(count);
                }
                landed
            }
            BootAction::WritePanic(count) => {
                if landed == BootEvent::Landed {
                    part.panic = words.map(|words| (count.get(), words));
                }
                landed
            }
            BootAction::Finish => return booting.finish(),
        };
        booting.answer(event);
    }
}

fn epoch(raw: u32) -> Epoch {
    Epoch::new(raw).expect("a nonzero epoch")
}

fn enrolled(part: &mut Part, n: usize) -> Generation {
    let Held::Present(under) = part.epoch else {
        panic!("an epoch");
    };
    let generation = Generation::first();
    let table = part.table.as_mut().expect("a table");
    table.slots[n - 1] = Some(Slot {
        epoch: under,
        generation,
    });
    generation
}

fn opens(report: &BootReport) -> bool {
    report.enrolment == EnrolmentAtBoot::Empty
}

#[test]
fn f_091_p_066_boot_repair_does_not_turn_absence_or_corruption_into_empty_evidence() {
    let mut part = Part::fresh();
    let (_, first) = boot(&mut part, None);
    assert_eq!(first.clients, Some(Repair::Done(Repaired::Initialised)));
    assert_eq!(first.enrolment, EnrolmentAtBoot::Unavailable);
    assert!(!opens(&first));
    let (_, second) = boot(&mut part, None);
    assert_eq!(second.enrolment, EnrolmentAtBoot::Empty);
    assert!(opens(&second));
    let _ = enrolled(&mut part, 2);
    let (_, third) = boot(&mut part, None);
    assert_eq!(third.enrolment, EnrolmentAtBoot::Enrolled);
    assert!(!opens(&third));
    // A slot with no copy that reads is freed, and the boot that freed
    // it is not evidence of an empty table.
    part.table.as_mut().expect("a table").slot_damaged = true;
    let (_, repair) = boot(&mut part, None);
    assert_eq!(repair.clients, Some(Repair::Done(Repaired::Freed)));
    assert_eq!(repair.enrolment, EnrolmentAtBoot::Unavailable);
    assert_eq!(part.enrolled(Epoch::first()), 0);
    assert!(!opens(&repair));
    let (_, next) = boot(&mut part, None);
    assert_eq!(next.enrolment, EnrolmentAtBoot::Empty);
    assert!(opens(&next));
}

#[test]
fn f_091_p_239_an_unreadable_mark_rebuilds_under_a_new_epoch_and_stays_closed_once() {
    let mut part = Part::fresh();
    let _ = boot(&mut part, None);
    let _ = enrolled(&mut part, 1);
    part.table.as_mut().expect("a table").mark_damaged = true;
    let (store, repair) = boot(&mut part, None);
    assert_eq!(
        repair.clients,
        Some(Repair::Done(Repaired::Rebuilt(epoch(2))))
    );
    assert_eq!(
        repair.epoch,
        EpochAtBoot::Advanced {
            from: Epoch::first(),
            to: epoch(2)
        }
    );
    assert!(matches!(store.epoch, Held::Present(held) if held == epoch(2)));
    assert_eq!(part.enrolled(epoch(2)), 0);
    assert!(!opens(&repair));
    let (_, next) = boot(&mut part, None);
    assert_eq!(next.epoch, EpochAtBoot::Held(epoch(2)));
    assert!(opens(&next));
}

#[test]
fn p_239_a_repair_cut_after_its_epoch_landed_reports_the_epoch_the_part_holds() {
    let mut part = Part::fresh();
    let _ = boot(&mut part, None);
    let _ = enrolled(&mut part, 1);
    part.table.as_mut().expect("a table").mark_damaged = true;
    part.cut_in_repair = true;
    let (store, report) = boot(&mut part, None);
    assert!(matches!(
        report.clients,
        Some(Repair::Failed(Unrepaired::Write(_)))
    ));
    assert!(matches!(store.epoch, Held::Present(held) if held == epoch(2)));
    assert_eq!(report.epoch.epoch(), Some(epoch(2)));
    assert_eq!(part.enrolled(epoch(2)), 0);
    assert!(!opens(&report));
}

#[test]
fn f_091_p_066_empty_table_requires_a_usable_epoch_to_open() {
    for damaged in [false, true] {
        let mut part = Part::fresh();
        let _ = boot(&mut part, None);
        if damaged {
            part.epoch = Held::Corrupt;
        }
        let (_, report) = boot(&mut part, None);
        assert_eq!(report.epoch.epoch().is_some(), !damaged);
        assert_eq!(report.clients.is_some(), !damaged);
        assert_eq!(opens(&report), !damaged);
    }
}

#[test]
fn f_026_p_085_a_reset_cut_after_its_epoch_leaves_a_valid_empty_table() {
    let mut part = Part::fresh();
    let _ = boot(&mut part, None);
    let _ = enrolled(&mut part, 1);
    let late = Tick::from_millis(1);
    part.table.as_mut().expect("a table").dedup.push(late);
    // The reset moves the epoch and the power goes before the slots.
    part.epoch = Held::Present(epoch(2));
    // A boot on a falling supply cannot clear the dedup table under the
    // new epoch: no evidence, no window.
    part.falling = true;
    let (_, refused) = boot(&mut part, None);
    assert_eq!(refused.epoch.epoch(), Some(epoch(2)));
    assert!(matches!(
        refused.clients,
        Some(Repair::Failed(Unrepaired::Write(_)))
    ));
    assert_eq!(refused.enrolment, EnrolmentAtBoot::Unavailable);
    assert!(!opens(&refused));
    part.falling = false;
    let (_, report) = boot(&mut part, None);
    assert_eq!(report.epoch, EpochAtBoot::Held(epoch(2)));
    assert_eq!(report.clients, Some(Repair::Done(Repaired::Nothing)));
    // The slot under epoch 1 is free under epoch 2: a valid empty table.
    assert_eq!(part.enrolled(epoch(2)), 0);
    assert_eq!(report.enrolment, EnrolmentAtBoot::Empty);
    assert!(opens(&report));
    let table = part.table.as_ref().expect("held");
    assert_eq!(table.dedup_epoch, epoch(2));
    assert!(table.dedup.is_empty());
}

#[test]
fn f_091_p_066_empty_table_with_refused_epoch_initialisation_stays_closed() {
    let mut part = Part::fresh();
    let _ = boot(&mut part, None);
    part.epoch = Held::Absent;
    part.falling = true;
    let (_, report) = boot(&mut part, None);
    assert_eq!(report.epoch.epoch(), None);
    assert_eq!(report.clients, None);
    assert_eq!(report.enrolment, EnrolmentAtBoot::Unavailable);
    assert!(!opens(&report));
}

#[test]
fn p_085_a_first_boot_writes_epoch_one_and_initialises_the_table_under_it() {
    let mut part = Part::fresh();
    let (store, report) = boot(&mut part, None);
    assert_eq!(report.epoch, EpochAtBoot::First);
    assert_eq!(report.epoch.epoch(), Some(Epoch::first()));
    assert_eq!(report.clients, Some(Repair::Done(Repaired::Initialised)));
    assert_eq!(report.boot, BootCount::first());
    assert_eq!(report.boot_refused, None);
    assert_eq!(report.panic_recorded, None);
    assert!(matches!(store.epoch, Held::Present(held) if held == Epoch::first()));
    assert_eq!(part.enrolled(Epoch::first()), 0);
    assert!(matches!(store.secret, Held::Absent));
    assert!(matches!(store.controller, Held::Absent));
    assert!(matches!(store.run, Held::Absent));
    assert!(matches!(store.release, Held::Absent));
    // The second boot is not the first.
    let (_, again) = boot(&mut part, None);
    assert_eq!(again.epoch, EpochAtBoot::Held(Epoch::first()));
    assert_eq!(again.clients, Some(Repair::Done(Repaired::Nothing)));
    assert_eq!(again.boot, BootCount::first().next());
}

#[test]
fn p_085_a_boot_with_no_readable_epoch_has_none_and_leaves_the_table_alone() {
    let mut part = Part::fresh();
    let _ = boot(&mut part, None);
    let _ = enrolled(&mut part, 1);
    part.epoch = Held::Corrupt;
    let before = part.table.as_ref().expect("a table").slots;
    let (_, report) = boot(&mut part, None);
    assert_eq!(report.epoch, EpochAtBoot::Without(NoEpoch::Corrupt));
    assert_eq!(report.epoch.epoch(), None);
    assert_eq!(report.clients, None);
    // The slot is still there, and nothing can enrol or bind under it
    // until a person writes an epoch.
    assert_eq!(part.enrolled(Epoch::first()), 1);
    assert_eq!(part.table.as_ref().expect("a table").slots, before);
    // A zero written raw is malformed, and no epoch either.
    let mut zero = Part::fresh();
    zero.epoch = Held::Malformed(Malformed { at: 0 });
    let (_, report) = boot(&mut zero, None);
    assert_eq!(
        report.epoch,
        EpochAtBoot::Without(NoEpoch::Malformed(Malformed { at: 0 }))
    );
}

#[test]
fn f_026_a_boot_raises_a_record_behind_a_slots_epoch_and_enrols_nothing_if_it_cannot() {
    let mut part = Part::fresh();
    let _ = boot(&mut part, None);
    part.epoch = Held::Present(epoch(2));
    part.table.as_mut().expect("a table").dedup_epoch = epoch(2);
    let generation = enrolled(&mut part, 3);
    // The record regresses under somebody's hand.
    part.epoch = Held::Present(Epoch::first());
    let (store, report) = boot(&mut part, None);
    assert_eq!(
        report.epoch,
        EpochAtBoot::Raised {
            from: Epoch::first(),
            to: epoch(2)
        }
    );
    assert_eq!(report.clients, Some(Repair::Done(Repaired::Nothing)));
    assert!(matches!(store.epoch, Held::Present(held) if held == epoch(2)));
    assert_eq!(
        part.table.as_ref().expect("a table").slots[2],
        Some(Slot {
            epoch: epoch(2),
            generation
        })
    );
    // And when the raise will not land, nothing is enrolled under the
    // lower record and nothing is repaired: the slot waits.
    part.epoch = Held::Present(Epoch::first());
    part.falling = true;
    let (store, report) = boot(&mut part, None);
    assert_eq!(
        report.epoch,
        EpochAtBoot::Without(NoEpoch::Regressed {
            record: Epoch::first(),
            table: epoch(2),
            refused: Refused::SupplyFalling,
        })
    );
    assert_eq!(report.clients, None);
    assert_eq!(part.enrolled(epoch(2)), 1);
    assert!(matches!(store.epoch, Held::Present(held) if held == Epoch::first()));
    assert!(part.table.as_ref().expect("a table").slots[2].is_some());
}

#[test]
fn p_121_a_boot_with_no_epoch_still_restarts_the_dedup_windows_at_tick_zero() {
    let mut part = Part::fresh();
    let _ = boot(&mut part, None);
    let _ = enrolled(&mut part, 1);
    let late = Tick::from_millis(500_000);
    part.table.as_mut().expect("a table").dedup.push(late);
    part.epoch = Held::Corrupt;
    let (_, report) = boot(&mut part, None);
    assert_eq!(report.epoch, EpochAtBoot::Without(NoEpoch::Corrupt));
    assert_eq!(report.clients, None);
    // The entry lives ten minutes from this boot, not from the tick it
    // was inserted at in the last one.
    assert_eq!(part.live(Tick::from_millis(599_999)), 1);
    assert_eq!(part.live(Tick::from_millis(600_000)), 0);
}

#[test]
fn f_008_the_boot_that_finds_last_words_records_them_with_its_boot_count() {
    let mut part = Part::fresh();
    let (_, first) = boot(&mut part, None);
    assert_eq!(first.panic_recorded, None);
    let words = (0xDEAD_BEEF, 42);
    let (_, second) = boot(&mut part, Some(words));
    assert_eq!(second.boot, BootCount::first().next());
    assert_eq!(second.panic_recorded, Some(PanicRecorded::Landed));
    assert_eq!(part.panic, Some((2, words)));
    // The record stays until the next panic.
    let (_, third) = boot(&mut part, None);
    assert_eq!(third.panic_recorded, None);
    assert_eq!(part.panic.map(|(boot, _)| boot), Some(2));
}

#[test]
fn f_017_a_boot_reads_the_ladders_cuts_and_carries_them_from_its_own_start() {
    let mut part = Part::fresh();
    let (store, report) = boot(&mut part, None);
    assert!(matches!(store.cuts, Held::Absent));
    assert_eq!(
        CutsRecord::carried(&store.cuts, report.boot),
        CarriedCuts {
            cuts: RecentCuts::none(),
            missed: 0
        },
        "a fresh unit has made no cut"
    );
    let seq = RailSequencer::new(Revision::B);
    let Plan::Cut(cut) = seq.plan_recovery(Tick::from_millis(90_000)) else {
        panic!("a cut");
    };
    let kept = cut.cuts();
    let record = CutsRecord {
        boot: match store.boots {
            Held::Present(count) => Some(count),
            _ => None,
        },
        cuts: kept,
    };
    part.cuts = Held::Present(record);
    let (store, report) = boot(&mut part, None);
    let carried = CutsRecord::carried(&store.cuts, report.boot);
    assert_eq!(carried.missed, 0, "written at the boot before this one");
    assert_eq!(carried.cuts.count(), 1);
    assert_eq!(
        carried.cuts,
        kept.rebased(),
        "moved to this boot's tick zero"
    );
}

#[test]
fn p_121_the_release_and_the_dedup_table_are_rebased_at_boot() {
    let mut part = Part::fresh();
    let _ = boot(&mut part, None);
    let _ = enrolled(&mut part, 1);
    let late = Tick::from_millis(500_000);
    part.table.as_mut().expect("a table").dedup.push(late);
    part.release = Held::Present(CommsRelease::Authorised(Release {
        version: Text::new("1.0").expect("fits"),
        image_len: 1,
        digest: Digest([9; 32]),
        authorised_at: late,
    }));
    let (store, _) = boot(&mut part, None);
    assert_eq!(part.live(Tick::from_millis(599_999)), 1);
    assert_eq!(part.live(Tick::from_millis(600_000)), 0);
    let Held::Present(release) = store.release else {
        panic!("a release");
    };
    assert!(release.admits(&Digest([9; 32]), Tick::from_millis(599_999)));
    assert!(!release.admits(&Digest([9; 32]), Tick::from_millis(600_000)));
}

#[test]
fn a_boot_on_a_falling_supply_reads_everything_and_reports_every_write_it_could_not_make() {
    let mut part = Part::fresh();
    part.falling = true;
    let words = (1, 2);
    let (store, report) = boot(&mut part, Some(words));
    assert_eq!(
        report.epoch,
        EpochAtBoot::Without(NoEpoch::Refused(Refused::SupplyFalling))
    );
    assert_eq!(report.clients, None);
    assert_eq!(report.boot, BootCount::first());
    assert_eq!(report.boot_refused, Some(Refused::SupplyFalling));
    // Not even attempted: a record under a count the part does not
    // hold would name a boot that never was.
    assert_eq!(
        report.panic_recorded,
        Some(PanicRecorded::WithoutABootCount)
    );
    assert!(matches!(store.epoch, Held::Absent));
    assert!(matches!(store.boots, Held::Absent));
    assert_eq!(part.panic, None);
    // With the supply back, the same boot lands everything.
    part.falling = false;
    let (_, report) = boot(&mut part, Some(words));
    assert_eq!(report.epoch, EpochAtBoot::First);
    assert_eq!(report.boot_refused, None);
    assert_eq!(report.panic_recorded, Some(PanicRecorded::Landed));
}

#[test]
fn an_answer_to_something_else_changes_nothing() {
    let mut booting = Store::boot(Part::fresh().store(), None, true);
    assert_eq!(booting.action(), BootAction::WriteEpoch(Epoch::first()));
    booting.answer(BootEvent::Repaired {
        repair: Repair::Done(Repaired::Nothing),
        epoch: Held::Absent,
        enrolled: 3,
    });
    assert_eq!(booting.action(), BootAction::WriteEpoch(Epoch::first()));
    booting.answer(BootEvent::Landed);
    assert_eq!(booting.action(), BootAction::RepairClients);
    booting.answer(BootEvent::Landed);
    assert_eq!(booting.action(), BootAction::RepairClients);
}

#[test]
fn a_repair_with_no_epoch_to_advance_leaves_the_boot_without_one() {
    for why in [Unrepaired::NoEpoch, Unrepaired::Epoch(Refused::AtTheCeiling)] {
        let mut part = Part::fresh();
        part.epoch = Held::Present(epoch(4));
        let mut booting = Store::boot(part.store(), None, false);
        booting.answer(BootEvent::Repaired {
            repair: Repair::Failed(why),
            epoch: Held::Present(epoch(4)),
            enrolled: 1,
        });
        booting.answer(BootEvent::Landed);
        let (_, report) = booting.finish();
        assert_eq!(report.epoch, EpochAtBoot::Without(NoEpoch::Unrepaired));
        assert_eq!(report.clients, Some(Repair::Failed(why)));
        assert_eq!(report.enrolment, EnrolmentAtBoot::Unavailable);
    }
}

#[test]
fn last_words_whose_write_is_refused_are_reported_so() {
    let mut booting = Store::boot(Part::fresh().store(), None, true);
    booting.answer(BootEvent::Landed);
    booting.answer(BootEvent::Repaired {
        repair: Repair::Done(Repaired::Initialised),
        epoch: Held::Present(Epoch::first()),
        enrolled: 0,
    });
    booting.answer(BootEvent::Landed);
    assert_eq!(booting.action(), BootAction::WritePanic(BootCount::first()));
    booting.answer(BootEvent::NotLanded(Refused::Bus));
    let (_, report) = booting.finish();
    assert_eq!(
        report.panic_recorded,
        Some(PanicRecorded::Refused(Refused::Bus))
    );
}

#[test]
fn windows_of_records_that_are_not_there_are_left_alone() {
    let mut release = Held::Corrupt;
    let mut cuts = Held::Malformed(Malformed { at: 4 });
    restart_windows(&mut release, &mut cuts);
    assert!(matches!(release, Held::Corrupt));
    assert!(matches!(cuts, Held::Malformed(Malformed { at: 4 })));
}
