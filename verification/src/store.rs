//! Every record the controller keeps, as a boot reads it, and the rules that
//! tie one record to another, applied where both are in hand.
//!
//! A boot reads the part once and holds what it read. Then, in this order: a
//! fresh unit gets its first epoch; an epoch record behind a slot written
//! under a later one is raised to it, because a slot's epoch is a second copy
//! of a counter that only climbs and the higher copy is the counter; the
//! client table is repaired, which may advance the epoch; the boot count
//! climbs and the last words, if a run left any, are written down with it.
//! Everything that measures a window on the tick is restarted at this boot's
//! tick zero.
//!
//! Every write is somebody else's: [`Booting`] says which one is next and
//! takes its outcome back, so what the boot decides is decided here for every
//! outcome a write can have.

use vstd::prelude::*;

use crate::body::{Held, Malformed, Refused};
use crate::boot_count::BootCount;
use crate::cuts::CutsRecord;
use crate::idents::Epoch;
use crate::release::{rebased_of, CommsRelease};
use crate::run_reason::RunReason;
use crate::secret::{ControllerKey, Secret};

verus! {

/// What the controller keeps on the part, as this boot read it.
pub struct Store {
    /// The device id and the printed secret the pairing keys derive from.
    pub secret: Held<Secret>,
    /// The controller key's private half.
    pub controller: Held<ControllerKey>,
    /// The epoch.
    pub epoch: Held<Epoch>,
    /// Why the generator is running.
    pub run: Held<RunReason>,
    /// How many times this unit has booted.
    pub boots: Held<BootCount>,
    /// The authorised comms release.
    pub release: Held<CommsRelease>,
    /// The recovery ladder's cuts of the last hour, and the boot count they
    /// were written at.
    pub cuts: Held<CutsRecord>,
}

/// Why the boot has no epoch. No key derives without one, so every pairing and
/// every session is refused until a later boot finds it or a person writes
/// one.
#[derive(Debug, Clone, Copy, PartialEq, Eq, Structural)]
pub enum NoEpoch {
    /// Both copies written and neither holds.
    Corrupt,
    /// A record that holds and does not decode: a zero.
    Malformed(Malformed),
    /// A fresh unit whose first epoch would not land.
    Refused(Refused),
    /// The record is behind a slot's epoch and raising it would not land.
    /// Enrolling under the record would issue names the move to the slot's
    /// epoch was made to retire, so nothing is enrolled.
    Regressed {
        /// What the record holds.
        record: Epoch,
        /// What the table is under.
        table: Epoch,
        /// Why the raise did not land.
        refused: Refused,
    },
    /// A table that cannot be trusted and no new epoch to leave it behind
    /// under.
    Unrepaired,
}

/// The epoch this boot runs under, and how it came to hold it.
#[derive(Debug, Clone, Copy, PartialEq, Eq, Structural)]
pub enum EpochAtBoot {
    /// Read from the record.
    Held(Epoch),
    /// A fresh unit: this boot wrote the first epoch.
    First,
    /// The record was behind a slot written under a later epoch and was raised
    /// to it.
    Raised {
        /// What the record held.
        from: Epoch,
        /// What it holds now, which is what the slot is under.
        to: Epoch,
    },
    /// The table was repaired under a new epoch, as a factory reset would.
    Advanced {
        /// What the record held.
        from: Epoch,
        /// What it holds now.
        to: Epoch,
    },
    /// There is none.
    Without(NoEpoch),
}

impl EpochAtBoot {
    /// The epoch keys derive under, in the mathematical sense.
    pub open spec fn spec_epoch(self) -> Option<Epoch> {
        match self {
            EpochAtBoot::Held(epoch) => Some(epoch),
            EpochAtBoot::Raised { to, .. } => Some(to),
            EpochAtBoot::Advanced { to, .. } => Some(to),
            EpochAtBoot::First => Some(Epoch::spec_first()),
            EpochAtBoot::Without(_) => None,
        }
    }

    /// The epoch keys derive under, if there is one.
    pub fn epoch(&self) -> (r: Option<Epoch>)
        ensures
            r == self.spec_epoch(),
    {
        match self {
            EpochAtBoot::Held(epoch) => Some(*epoch),
            EpochAtBoot::Raised { to, .. } => Some(*to),
            EpochAtBoot::Advanced { to, .. } => Some(*to),
            EpochAtBoot::First => Some(Epoch::first()),
            EpochAtBoot::Without(_) => None,
        }
    }
}

/// Whether the last words landed.
#[derive(Debug, Clone, Copy, PartialEq, Eq, Structural)]
pub enum PanicRecorded {
    /// On the part, under this boot's count.
    Landed,
    /// The write did not happen.
    Refused(Refused),
    /// Not attempted: this boot's count did not land, and a record under a
    /// count the part does not hold would name a boot that never was.
    WithoutABootCount,
}

/// What a boot repaired in the client table.
#[derive(Debug, Clone, Copy, PartialEq, Eq, Structural)]
pub enum Repaired {
    /// It was whole.
    Nothing,
    /// It was never written, and is now.
    Initialised,
    /// A slot with no copy that reads was freed.
    Freed,
    /// A generation mark could not be read: rebuilt under this epoch.
    Rebuilt(Epoch),
}

/// Why a table was not repaired.
#[derive(Debug, Clone, Copy, PartialEq, Eq, Structural)]
pub enum Unrepaired {
    /// The epoch it needed advanced did not land.
    Epoch(Refused),
    /// There is no epoch to advance.
    NoEpoch,
    /// A write of the table itself did not land.
    Write(Refused),
}

/// What the table at boot is evidence of.
#[derive(Debug, Clone, Copy, PartialEq, Eq, Structural)]
pub enum EnrolmentAtBoot {
    /// A whole table with nobody in it.
    Empty,
    /// Somebody is enrolled.
    Enrolled,
    /// The boot cannot say: it wrote the table, or could not.
    Unavailable,
}

impl EnrolmentAtBoot {
    /// What a repair and the clients left are evidence of, in the mathematical
    /// sense.
    pub open spec fn spec_from_table(repaired: Option<Repaired>, enrolled: nat) -> Self {
        if repaired != Some(Repaired::Nothing) {
            EnrolmentAtBoot::Unavailable
        } else if enrolled == 0 {
            EnrolmentAtBoot::Empty
        } else {
            EnrolmentAtBoot::Enrolled
        }
    }

    /// What a repair and the clients left are evidence of: a table the boot
    /// wrote to is evidence of nothing.
    pub fn from_table(repaired: Option<Repaired>, enrolled: usize) -> (r: Self)
        ensures
            r == Self::spec_from_table(repaired, enrolled as nat),
    {
        match repaired {
            Some(Repaired::Nothing) => if enrolled == 0 {
                EnrolmentAtBoot::Empty
            } else {
                EnrolmentAtBoot::Enrolled
            },
            _ => EnrolmentAtBoot::Unavailable,
        }
    }
}

/// What the boot did, for the log and for what the caller owes.
#[derive(Debug, Clone, Copy, PartialEq, Eq, Structural)]
#[must_use]
pub struct BootReport {
    /// The epoch this boot runs under, or why there is none.
    pub epoch: EpochAtBoot,
    /// What the boot repaired in the client table, or why it could not; and
    /// nothing when there was no epoch to take it under.
    pub clients: Option<Repair>,
    /// What the table was evidence of before its repair.
    pub enrolment: EnrolmentAtBoot,
    /// The number of this boot.
    pub boot: BootCount,
    /// Why that number did not land on the part, if it did not.
    pub boot_refused: Option<Refused>,
    /// Whether the last words landed, if a run left any.
    pub panic_recorded: Option<PanicRecorded>,
}

/// How a repair of the client table went.
#[derive(Debug, Clone, Copy, PartialEq, Eq, Structural)]
pub enum Repair {
    /// The table is whole.
    Done(Repaired),
    /// It is not.
    Failed(Unrepaired),
}

/// The next thing a boot asks for.
#[derive(Debug, Clone, Copy, PartialEq, Eq, Structural)]
pub enum BootAction {
    /// Write this epoch to its record.
    WriteEpoch(Epoch),
    /// Repair the client table under the record's epoch.
    RepairClients,
    /// No epoch: restart the dedup windows in memory, and repair nothing.
    RestartCommands,
    /// Write this boot count.
    WriteBootCount(BootCount),
    /// Write the last words under this boot count.
    WritePanic(BootCount),
    /// Nothing: the report is ready.
    Finish,
}

/// What became of what a boot asked for.
#[derive(Debug, Clone, Copy, PartialEq, Eq, Structural)]
pub enum BootEvent {
    /// The write landed, or the restart was done.
    Landed,
    /// The write did not land.
    NotLanded(Refused),
    /// The table was repaired, or not.
    Repaired {
        /// How it went.
        repair: Repair,
        /// What the epoch record holds after it.
        epoch: Held<Epoch>,
        /// How many clients are enrolled under that epoch.
        enrolled: usize,
    },
}

/// Where a boot is.
#[derive(Debug, Clone, Copy, PartialEq, Eq, Structural)]
pub enum Stage {
    /// A fresh unit's first epoch is being written.
    FirstEpoch,
    /// The record is being raised to the table's epoch.
    Raise {
        /// What the record held.
        record: Epoch,
        /// What the table is under.
        table: Epoch,
    },
    /// The table is being repaired under this epoch.
    Clients(Epoch),
    /// There is no epoch, and the dedup windows are being restarted.
    Commands,
    /// The boot count is being written.
    Count,
    /// The last words are being written.
    Panic,
    /// Everything was asked.
    Done,
}

/// A boot's decisions so far.
#[derive(Debug, Clone, Copy, PartialEq, Eq, Structural)]
pub struct BootState {
    /// The epoch record, as it is known to stand.
    pub record: Held<Epoch>,
    /// The boot count record, as it is known to stand.
    pub boots: Held<BootCount>,
    /// The highest epoch a slot of the client table was written under.
    pub table: Option<Epoch>,
    /// Whether the previous run left last words.
    pub words: bool,
    /// Where the boot is.
    pub stage: Stage,
    /// The report so far.
    pub report: BootReport,
}

/// This boot's number.
pub open spec fn boot_after(boots: Held<BootCount>) -> BootCount {
    match boots {
        Held::Present(previous) => previous.spec_next(),
        _ => BootCount::spec_first(),
    }
}

impl BootState {
    /// What the boot asks for where it is.
    pub open spec fn asks(self) -> BootAction {
        match self.stage {
            Stage::FirstEpoch => BootAction::WriteEpoch(Epoch::spec_first()),
            Stage::Raise { table, .. } => BootAction::WriteEpoch(table),
            Stage::Clients(_) => BootAction::RepairClients,
            Stage::Commands => BootAction::RestartCommands,
            Stage::Count => BootAction::WriteBootCount(self.report.boot),
            Stage::Panic => BootAction::WritePanic(self.report.boot),
            Stage::Done => BootAction::Finish,
        }
    }

    /// With the record's own epoch settled, whether the table's is higher: a
    /// slot's epoch is a second copy, and a record behind it is raised to it,
    /// never the other way round.
    pub open spec fn settled(self, epoch: EpochAtBoot) -> Self {
        let report = BootReport { epoch, ..self.report };
        match (epoch.spec_epoch(), self.table) {
            (Some(record), Some(table)) if table@ > record@ => BootState {
                stage: Stage::Raise { record, table },
                report,
                ..self
            },
            (Some(record), _) => BootState { stage: Stage::Clients(record), report, ..self },
            (None, _) => BootState { stage: Stage::Commands, report, ..self },
        }
    }

    /// With the raise settled.
    pub open spec fn raised(self, epoch: EpochAtBoot) -> Self {
        BootState {
            stage: match epoch.spec_epoch() {
                Some(under) => Stage::Clients(under),
                None => Stage::Commands,
            },
            report: BootReport { epoch, ..self.report },
            ..self
        }
    }

    /// The boot's epoch after a repair. The record, not the repair's result,
    /// says which epoch the boot is under: a repair that advanced it and then
    /// failed a later write has still retired every slot of the old one.
    pub open spec fn epoch_after(self, before: Epoch, repair: Repair, record: Held<Epoch>) -> EpochAtBoot {
        match (repair, record) {
            (Repair::Failed(Unrepaired::Epoch(_)), _) => EpochAtBoot::Without(NoEpoch::Unrepaired),
            (Repair::Failed(Unrepaired::NoEpoch), _) => EpochAtBoot::Without(NoEpoch::Unrepaired),
            (_, Held::Present(held)) => if held != before {
                EpochAtBoot::Advanced { from: before, to: held }
            } else {
                self.report.epoch
            },
            _ => EpochAtBoot::Without(NoEpoch::Unrepaired),
        }
    }

    /// With the boot count settled.
    pub open spec fn counted(self, refused: Option<Refused>) -> Self {
        BootState {
            boots: if refused is None {
                Held::Present(self.report.boot)
            } else {
                self.boots
            },
            stage: if self.words && refused is None {
                Stage::Panic
            } else {
                Stage::Done
            },
            report: BootReport {
                boot_refused: refused,
                panic_recorded: if self.words && refused is Some {
                    Some(PanicRecorded::WithoutABootCount)
                } else {
                    None
                },
                ..self.report
            },
            ..self
        }
    }

    /// The boot before its first question.
    pub open spec fn begun(
        record: Held<Epoch>,
        boots: Held<BootCount>,
        table: Option<Epoch>,
        words: bool,
    ) -> Self {
        let fresh = BootState {
            record,
            boots,
            table,
            words,
            stage: Stage::FirstEpoch,
            report: BootReport {
                epoch: EpochAtBoot::First,
                clients: None,
                enrolment: EnrolmentAtBoot::Unavailable,
                boot: boot_after(boots),
                boot_refused: None,
                panic_recorded: None,
            },
        };
        match record {
            Held::Absent => fresh,
            Held::Present(held) => fresh.settled(EpochAtBoot::Held(held)),
            Held::Corrupt => fresh.settled(EpochAtBoot::Without(NoEpoch::Corrupt)),
            Held::Malformed(m) => fresh.settled(EpochAtBoot::Without(NoEpoch::Malformed(m))),
        }
    }

    /// The boot after the answer to what it asked. An answer to something else
    /// changes nothing.
    pub open spec fn answered(self, event: BootEvent) -> Self {
        match (self.stage, event) {
            (Stage::FirstEpoch, BootEvent::Landed) => (BootState {
                record: Held::Present(Epoch::spec_first()),
                ..self
            }).settled(EpochAtBoot::First),
            (Stage::FirstEpoch, BootEvent::NotLanded(refused)) => self.settled(
                EpochAtBoot::Without(NoEpoch::Refused(refused)),
            ),
            (Stage::Raise { record, table }, BootEvent::Landed) => (BootState {
                record: Held::Present(table),
                ..self
            }).raised(EpochAtBoot::Raised { from: record, to: table }),
            (Stage::Raise { record, table }, BootEvent::NotLanded(refused)) => self.raised(
                EpochAtBoot::Without(NoEpoch::Regressed { record, table, refused }),
            ),
            (
                Stage::Clients(before),
                BootEvent::Repaired { repair, epoch, enrolled },
            ) => {
                let under = self.epoch_after(before, repair, epoch);
                BootState {
                    record: epoch,
                    stage: Stage::Count,
                    report: BootReport {
                        epoch: under,
                        clients: Some(repair),
                        enrolment: EnrolmentAtBoot::spec_from_table(
                            match repair {
                                Repair::Done(repaired) => Some(repaired),
                                Repair::Failed(_) => None,
                            },
                            if under.spec_epoch() is Some {
                                enrolled as nat
                            } else {
                                0
                            },
                        ),
                        ..self.report
                    },
                    ..self
                }
            },
            (Stage::Commands, BootEvent::Landed) => BootState { stage: Stage::Count, ..self },
            (Stage::Count, BootEvent::Landed) => self.counted(None),
            (Stage::Count, BootEvent::NotLanded(refused)) => self.counted(Some(refused)),
            (Stage::Panic, BootEvent::Landed) => BootState {
                stage: Stage::Done,
                report: BootReport {
                    panic_recorded: Some(PanicRecorded::Landed),
                    ..self.report
                },
                ..self
            },
            (Stage::Panic, BootEvent::NotLanded(refused)) => BootState {
                stage: Stage::Done,
                report: BootReport {
                    panic_recorded: Some(PanicRecorded::Refused(refused)),
                    ..self.report
                },
                ..self
            },
            _ => self,
        }
    }
}

/// A boot under way: what it read, and what it has decided.
pub struct Booting {
    store: Store,
    state: BootState,
}

impl View for Booting {
    type V = BootState;

    closed spec fn view(&self) -> BootState {
        self.state
    }
}

impl Store {
    /// Start a boot over what the part held: the records, the highest epoch a
    /// slot of the client table was written under, and whether the previous
    /// run left last words. Nothing has been written yet.
    pub fn boot(found: Store, table: Option<Epoch>, last_words: bool) -> (r: Booting)
        ensures
            r@ == BootState::begun(found.epoch, found.boots, table, last_words),
            r.found() == found,
    {
        let boot = match found.boots {
            Held::Present(previous) => previous.next(),
            Held::Absent | Held::Corrupt | Held::Malformed(_) => BootCount::first(),
        };
        let state = BootState {
            record: found.epoch,
            boots: found.boots,
            table,
            words: last_words,
            stage: Stage::FirstEpoch,
            report: BootReport {
                epoch: EpochAtBoot::First,
                clients: None,
                enrolment: EnrolmentAtBoot::Unavailable,
                boot,
                boot_refused: None,
                panic_recorded: None,
            },
        };
        let record = found.epoch;
        let mut booting = Booting { store: found, state };
        match record {
            Held::Absent => {},
            Held::Present(held) => booting.settle(EpochAtBoot::Held(held)),
            Held::Corrupt => booting.settle(EpochAtBoot::Without(NoEpoch::Corrupt)),
            Held::Malformed(m) => booting.settle(EpochAtBoot::Without(NoEpoch::Malformed(m))),
        }
        booting
    }
}

impl Booting {
    /// What the part held when the boot began.
    pub closed spec fn found(&self) -> Store {
        self.store
    }

    /// The next thing to do.
    pub fn action(&self) -> (r: BootAction)
        ensures
            r == self@.asks(),
    {
        match self.state.stage {
            Stage::FirstEpoch => BootAction::WriteEpoch(Epoch::first()),
            Stage::Raise { table, .. } => BootAction::WriteEpoch(table),
            Stage::Clients(_) => BootAction::RepairClients,
            Stage::Commands => BootAction::RestartCommands,
            Stage::Count => BootAction::WriteBootCount(self.state.report.boot),
            Stage::Panic => BootAction::WritePanic(self.state.report.boot),
            Stage::Done => BootAction::Finish,
        }
    }

    /// The record's own epoch is settled: raise it, repair the table under it,
    /// or do without.
    fn settle(&mut self, epoch: EpochAtBoot)
        ensures
            final(self)@ == old(self)@.settled(epoch),
            final(self).found() == old(self).found(),
    {
        self.state.report.epoch = epoch;
        self.state.stage = match epoch.epoch() {
            Some(record) => match self.state.table {
                Some(table) => if table.get() > record.get() {
                    Stage::Raise { record, table }
                } else {
                    Stage::Clients(record)
                },
                None => Stage::Clients(record),
            },
            None => Stage::Commands,
        };
    }

    /// The raise is settled: repair the table under the epoch, or do without.
    fn raise(&mut self, epoch: EpochAtBoot)
        ensures
            final(self)@ == old(self)@.raised(epoch),
            final(self).found() == old(self).found(),
    {
        self.state.report.epoch = epoch;
        self.state.stage = match epoch.epoch() {
            Some(under) => Stage::Clients(under),
            None => Stage::Commands,
        };
    }

    /// The client table was repaired, or not, under `before`, and the epoch
    /// record now stands as `record`. What the read is evidence of comes from
    /// the repair; a repair that advanced the epoch moves the boot's with it.
    pub fn boot_clients(&mut self, before: Epoch, repair: Repair, record: Held<Epoch>, enrolled: usize)
        requires
            old(self)@.stage == Stage::Clients(before),
        ensures
            final(self)@ == old(self)@.answered(
                BootEvent::Repaired { repair, epoch: record, enrolled },
            ),
            final(self).found() == old(self).found(),
    {
        let under = match repair {
            Repair::Failed(Unrepaired::Epoch(_)) | Repair::Failed(Unrepaired::NoEpoch) => {
                EpochAtBoot::Without(NoEpoch::Unrepaired)
            },
            Repair::Done(_) | Repair::Failed(Unrepaired::Write(_)) => match record {
                Held::Present(held) => if held != before {
                    EpochAtBoot::Advanced { from: before, to: held }
                } else {
                    self.state.report.epoch
                },
                Held::Absent | Held::Corrupt | Held::Malformed(_) => {
                    EpochAtBoot::Without(NoEpoch::Unrepaired)
                },
            },
        };
        let counted: usize = if under.epoch().is_some() {
            enrolled
        } else {
            0
        };
        let repaired = match repair {
            Repair::Done(repaired) => Some(repaired),
            Repair::Failed(_) => None,
        };
        self.state.record = record;
        self.state.report.epoch = under;
        self.state.report.clients = Some(repair);
        self.state.report.enrolment = EnrolmentAtBoot::from_table(repaired, counted);
        self.state.stage = Stage::Count;
    }

    /// The boot count landed, or not: the last words go out only under a count
    /// the part holds.
    fn count(&mut self, refused: Option<Refused>)
        ensures
            final(self)@ == old(self)@.counted(refused),
            final(self).found() == old(self).found(),
    {
        self.state.report.boot_refused = refused;
        self.state.report.panic_recorded = None;
        self.state.stage = Stage::Done;
        if refused.is_none() {
            self.state.boots = Held::Present(self.state.report.boot);
            if self.state.words {
                self.state.stage = Stage::Panic;
            }
        } else if self.state.words {
            self.state.report.panic_recorded = Some(PanicRecorded::WithoutABootCount);
        }
    }

    /// What became of what [`action`](Self::action) asked for. An answer to
    /// something else changes nothing.
    pub fn answer(&mut self, event: BootEvent)
        ensures
            final(self)@ == old(self)@.answered(event),
            final(self).found() == old(self).found(),
    {
        match (self.state.stage, event) {
            (Stage::FirstEpoch, BootEvent::Landed) => {
                self.state.record = Held::Present(Epoch::first());
                self.settle(EpochAtBoot::First);
            },
            (Stage::FirstEpoch, BootEvent::NotLanded(refused)) => {
                self.settle(EpochAtBoot::Without(NoEpoch::Refused(refused)));
            },
            (Stage::Raise { record, table }, BootEvent::Landed) => {
                self.state.record = Held::Present(table);
                self.raise(EpochAtBoot::Raised { from: record, to: table });
            },
            (Stage::Raise { record, table }, BootEvent::NotLanded(refused)) => {
                self.raise(
                    EpochAtBoot::Without(NoEpoch::Regressed { record, table, refused }),
                );
            },
            (Stage::Clients(before), BootEvent::Repaired { repair, epoch, enrolled }) => {
                self.boot_clients(before, repair, epoch, enrolled);
            },
            (Stage::Commands, BootEvent::Landed) => {
                self.state.stage = Stage::Count;
            },
            (Stage::Count, BootEvent::Landed) => self.count(None),
            (Stage::Count, BootEvent::NotLanded(refused)) => self.count(Some(refused)),
            (Stage::Panic, BootEvent::Landed) => {
                self.state.report.panic_recorded = Some(PanicRecorded::Landed);
                self.state.stage = Stage::Done;
            },
            (Stage::Panic, BootEvent::NotLanded(refused)) => {
                self.state.report.panic_recorded = Some(PanicRecorded::Refused(refused));
                self.state.stage = Stage::Done;
            },
            _ => {},
        }
    }

    /// The store as the boot leaves it, its windows restarted at this boot's
    /// tick zero, and the report.
    pub fn finish(self) -> (r: (Store, BootReport))
        ensures
            r.1 == self@.report,
            r.0.epoch == self@.record,
            r.0.boots == self@.boots,
            r.0.secret == self.found().secret,
            r.0.controller == self.found().controller,
            r.0.run == self.found().run,
            release_restarted(self.found().release, r.0.release),
            cuts_restarted(self.found().cuts, r.0.cuts),
    {
        let Booting { store, state } = self;
        let mut release = store.release;
        let mut cuts = store.cuts;
        restart_windows(&mut release, &mut cuts);
        (
            Store {
                secret: store.secret,
                controller: store.controller,
                epoch: state.record,
                run: store.run,
                boots: state.boots,
                release,
                cuts,
            },
            state.report,
        )
    }
}

/// Whether a release record is what it was with its window restarted.
pub open spec fn release_restarted(before: Held<CommsRelease>, after: Held<CommsRelease>) -> bool {
    match before {
        Held::Present(held) => after matches Held::Present(kept) && kept@ == rebased_of(held@),
        _ => after == before,
    }
}

/// Whether a cuts record is what it was with its cuts moved to the boot's
/// start.
pub open spec fn cuts_restarted(before: Held<CutsRecord>, after: Held<CutsRecord>) -> bool {
    match before {
        Held::Present(held) => after == Held::Present(
            CutsRecord { boot: held.boot, cuts: held.cuts.spec_rebased() },
        ),
        _ => after == before,
    }
}

/// Every window measured on the tick restarts at this boot's tick zero, in
/// memory: the authorised release's and the recovery ladder's.
pub fn restart_windows(release: &mut Held<CommsRelease>, cuts: &mut Held<CutsRecord>)
    ensures
        release_restarted(*old(release), *final(release)),
        cuts_restarted(*old(cuts), *final(cuts)),
{
    if let Held::Present(held) = *release {
        *release = Held::Present(held.rebased());
    }
    if let Held::Present(held) = *cuts {
        *cuts = Held::Present(CutsRecord { boot: held.boot, cuts: held.cuts.rebased() });
    }
}

/// A boot that is answered with everything it asks for.
pub open spec fn after_all(state: BootState, events: Seq<BootEvent>) -> BootState
    decreases events.len(),
{
    if events.len() == 0 {
        state
    } else {
        after_all(state, events.drop_last()).answered(events.last())
    }
}

/// What holds at every point of a boot.
pub open spec fn in_order(
    state: BootState,
    boots: Held<BootCount>,
    table: Option<Epoch>,
    words: bool,
) -> bool {
    &&& state.table == table
    &&& state.words == words
    &&& state.report.boot == boot_after(boots)
    &&& state.boots == boots || state.boots == Held::Present(boot_after(boots))
    &&& state.report.panic_recorded matches Some(PanicRecorded::Landed) ==> {
        &&& words
        &&& state.report.boot_refused is None
        &&& state.boots == Held::Present(boot_after(boots))
    }
    &&& state.stage == Stage::Panic ==> {
        &&& words
        &&& state.report.boot_refused is None
        &&& state.boots == Held::Present(boot_after(boots))
    }
    &&& state.report.panic_recorded is Some ==> words
    &&& state.report.clients is None ==> state.report.enrolment == EnrolmentAtBoot::Unavailable
    &&& state.stage matches Stage::Clients(under) ==> state.report.epoch.spec_epoch() == Some(
        under,
    )
    &&& state.stage matches Stage::Raise { record: low, table: high } ==> {
        &&& table == Some(high)
        &&& high@ > low@
    }
    &&& state.stage == Stage::Commands ==> state.report.epoch.spec_epoch() is None
    &&& state.stage !is FirstEpoch && state.stage !is Raise ==> (
    state.report.epoch.spec_epoch() matches Some(under) ==> state.record == Held::Present(under))
    &&& state.stage is FirstEpoch || state.stage is Raise || state.stage is Clients
        || state.stage is Commands ==> state.report.clients is None
    &&& (state.stage is Count || state.stage is Panic || state.stage is Done)
        && state.report.clients is None ==> state.report.epoch.spec_epoch() is None
    &&& (state.stage !is FirstEpoch && state.stage !is Raise && state.report.clients is None)
        ==> (state.report.epoch.spec_epoch() matches Some(under) ==> (table matches Some(
        high,
    ) ==> under@ >= high@))
}

/// Every answer keeps a boot in order.
proof fn lemma_in_order(
    state: BootState,
    event: BootEvent,
    boots: Held<BootCount>,
    table: Option<Epoch>,
    words: bool,
)
    requires
        in_order(state, boots, table, words),
    ensures
        in_order(state.answered(event), boots, table, words),
{
}

/// Whatever the writes of a boot come to, it stays in order.
pub proof fn law_a_boot_stays_in_order(
    record: Held<Epoch>,
    boots: Held<BootCount>,
    table: Option<Epoch>,
    words: bool,
    events: Seq<BootEvent>,
)
    ensures
        in_order(
            after_all(BootState::begun(record, boots, table, words), events),
            boots,
            table,
            words,
        ),
    decreases events.len(),
{
    if events.len() > 0 {
        law_a_boot_stays_in_order(record, boots, table, words, events.drop_last());
        lemma_in_order(
            after_all(BootState::begun(record, boots, table, words), events.drop_last()),
            events.last(),
            boots,
            table,
            words,
        );
    }
}

/// The last words are never recorded under a boot count the part does not
/// hold, and never when no run left any.
pub proof fn law_last_words_only_under_a_count_that_landed(
    record: Held<Epoch>,
    boots: Held<BootCount>,
    table: Option<Epoch>,
    words: bool,
    events: Seq<BootEvent>,
)
    ensures
        ({
            let state = after_all(BootState::begun(record, boots, table, words), events);
            &&& state.report.panic_recorded == Some(PanicRecorded::Landed) ==> {
                &&& words
                &&& state.boots == Held::Present(boot_after(boots))
            }
            &&& state.asks() matches BootAction::WritePanic(boot) ==> state.boots == Held::Present(
                boot,
            )
            &&& !words ==> state.report.panic_recorded is None
        }),
{
    law_a_boot_stays_in_order(record, boots, table, words, events);
}

/// The table is repaired only under an epoch, and never under one below what
/// a slot of it was written under; without an epoch it is left alone and is
/// evidence of nothing.
pub proof fn law_the_table_is_repaired_under_its_epoch_or_not_at_all(
    record: Held<Epoch>,
    boots: Held<BootCount>,
    table: Option<Epoch>,
    words: bool,
    events: Seq<BootEvent>,
)
    ensures
        ({
            let state = after_all(BootState::begun(record, boots, table, words), events);
            &&& state.asks() == BootAction::RepairClients ==> (
            state.report.epoch.spec_epoch() matches Some(under) && (table matches Some(high)
                ==> under@ >= high@))
            &&& state.stage == Stage::Done && state.report.clients is None ==> {
                &&& state.report.epoch.spec_epoch() is None
                &&& state.report.enrolment == EnrolmentAtBoot::Unavailable
            }
        }),
{
    law_a_boot_stays_in_order(record, boots, table, words, events);
}

/// The epoch a boot reports is the one the part holds: keys never derive under
/// an epoch that did not land.
pub proof fn law_the_epoch_reported_is_the_epoch_kept(
    record: Held<Epoch>,
    boots: Held<BootCount>,
    table: Option<Epoch>,
    words: bool,
    events: Seq<BootEvent>,
)
    ensures
        ({
            let state = after_all(BootState::begun(record, boots, table, words), events);
            state.stage == Stage::Done ==> (state.report.epoch.spec_epoch() matches Some(under)
                ==> state.record == Held::Present(under))
        }),
{
    law_a_boot_stays_in_order(record, boots, table, words, events);
}

/// An epoch record is only ever raised: the boot asks for no epoch but a fresh
/// unit's first, or the table's when it is above the record's.
pub proof fn law_an_epoch_is_never_lowered(
    record: Held<Epoch>,
    boots: Held<BootCount>,
    table: Option<Epoch>,
    words: bool,
    events: Seq<BootEvent>,
)
    ensures
        ({
            let state = after_all(BootState::begun(record, boots, table, words), events);
            state.asks() matches BootAction::WriteEpoch(epoch) ==> {
                ||| state.stage == Stage::FirstEpoch && epoch == Epoch::spec_first()
                ||| table == Some(epoch) && (state.stage matches Stage::Raise {
                    record: low,
                    ..
                } && epoch@ > low@)
            }
        }),
{
    law_a_boot_stays_in_order(record, boots, table, words, events);
}

/// A boot begins by what its epoch record held: a fresh unit writes epoch one,
/// a record behind the table is raised to the table's epoch and one that is not
/// has its table repaired under it, and with a record that does not read
/// nothing is repaired.
pub proof fn law_a_boot_begins_by_its_epoch_record(
    record: Held<Epoch>,
    boots: Held<BootCount>,
    table: Option<Epoch>,
    words: bool,
)
    ensures
        ({
            let begun = BootState::begun(record, boots, table, words);
            &&& record is Absent ==> (begun.asks() matches BootAction::WriteEpoch(first) && first@
                == 1)
            &&& record matches Held::Present(held) ==> {
                &&& table is Some && table->0@ > held@ ==> begun.asks() == BootAction::WriteEpoch(
                    table->0,
                )
                &&& table is None || table->0@ <= held@ ==> begun.asks()
                    == BootAction::RepairClients && begun.report.epoch == EpochAtBoot::Held(held)
            }
            &&& record is Corrupt ==> begun.asks() == BootAction::RestartCommands
                && begun.report.epoch == EpochAtBoot::Without(NoEpoch::Corrupt)
            &&& record matches Held::Malformed(at) ==> begun.asks() == BootAction::RestartCommands
                && begun.report.epoch == EpochAtBoot::Without(NoEpoch::Malformed(at))
            &&& begun.record == record
            &&& begun.boots == boots
        }),
{
    Epoch::lemma_first();
}

/// This boot's number is one above the count the part holds, and one where it
/// holds none that reads; the last number there is stays the last.
pub proof fn law_a_boot_is_one_above_the_last(boots: Held<BootCount>)
    ensures
        boots matches Held::Present(last) ==> (last@ < u32::MAX ==> boot_after(boots)@ == last@ + 1),
        boots matches Held::Present(last) ==> (last@ == u32::MAX ==> boot_after(boots)@ == last@),
        !(boots is Present) ==> boot_after(boots)@ == 1,
{
    match boots {
        Held::Present(last) => last.lemma_numbers(),
        _ => {
            let none = BootCount::spec_first();
            none.lemma_numbers();
        },
    }
}

/// An epoch write that lands is the epoch the boot runs under and the table is
/// repaired under; one that does not leaves the record as it was and the boot
/// without an epoch, and its table alone.
pub proof fn law_an_epoch_that_lands_is_run_under(state: BootState, why: Refused)
    requires
        state.asks() is WriteEpoch,
        state.stage is FirstEpoch ==> (state.table is None || state.table->0@ <= 1),
    ensures
        ({
            let epoch = state.asks()->WriteEpoch_0;
            let landed = state.answered(BootEvent::Landed);
            let refused = state.answered(BootEvent::NotLanded(why));
            &&& landed.record == Held::Present(epoch)
            &&& landed.report.epoch.spec_epoch() == Some(epoch)
            &&& landed.asks() == BootAction::RepairClients
            &&& refused.record == state.record
            &&& refused.report.epoch.spec_epoch() is None
            &&& refused.asks() == BootAction::RestartCommands
            &&& state.stage is FirstEpoch ==> landed.report.epoch == EpochAtBoot::First
                && refused.report.epoch == EpochAtBoot::Without(NoEpoch::Refused(why))
            &&& state.stage matches Stage::Raise { record, table } ==> landed.report.epoch == (
            EpochAtBoot::Raised { from: record, to: table }) && refused.report.epoch
                == EpochAtBoot::Without(NoEpoch::Regressed { record, table, refused: why })
        }),
{
    Epoch::lemma_first();
}

/// A fresh unit whose table was written under a later epoch is raised to it
/// once its first epoch has landed.
pub proof fn law_a_first_epoch_is_raised_to_the_table(state: BootState)
    requires
        state.stage is FirstEpoch,
        state.table matches Some(table) && table@ > 1,
    ensures
        state.answered(BootEvent::Landed).asks() == BootAction::WriteEpoch(state.table->0),
{
    Epoch::lemma_first();
}

/// What a table is evidence of: only one the boot found whole says anything,
/// and then somebody is enrolled exactly when a slot is occupied.
pub proof fn law_only_a_whole_table_is_evidence(repaired: Option<Repaired>, enrolled: nat)
    ensures
        EnrolmentAtBoot::spec_from_table(repaired, enrolled) == EnrolmentAtBoot::Empty <==> repaired
            == Some(Repaired::Nothing) && enrolled == 0,
        EnrolmentAtBoot::spec_from_table(repaired, enrolled) == EnrolmentAtBoot::Enrolled
            <==> repaired == Some(Repaired::Nothing) && enrolled > 0,
        EnrolmentAtBoot::spec_from_table(repaired, enrolled) == EnrolmentAtBoot::Unavailable
            <==> repaired != Some(Repaired::Nothing),
{
}

/// A repair leaves the boot under the epoch the record then holds: the one it
/// had, or the one the repair moved it to, even where a later write of the
/// repair failed. A repair that could not move the epoch leaves it with none.
pub proof fn law_a_repair_leaves_the_records_epoch(
    state: BootState,
    before: Epoch,
    repair: Repair,
    record: Held<Epoch>,
    enrolled: usize,
)
    requires
        state.stage == Stage::Clients(before),
    ensures
        ({
            let after = state.answered(BootEvent::Repaired { repair, epoch: record, enrolled });
            let stuck = repair matches Repair::Failed(why) && (why is Epoch || why is NoEpoch);
            &&& after.record == record
            &&& after.asks() == BootAction::WriteBootCount(state.report.boot)
            &&& after.report.clients == Some(repair)
            &&& stuck || !(record is Present) ==> after.report.epoch == EpochAtBoot::Without(
                NoEpoch::Unrepaired,
            )
            &&& !stuck && record is Present && record->Present_0 != before ==> after.report.epoch
                == (EpochAtBoot::Advanced { from: before, to: record->Present_0 })
            &&& !stuck && record == Held::Present(before) ==> after.report.epoch
                == state.report.epoch
            &&& after.report.enrolment == EnrolmentAtBoot::Enrolled ==> repair == Repair::Done(
                Repaired::Nothing,
            ) && enrolled > 0
            &&& !stuck && record is Present && repair == Repair::Done(Repaired::Nothing) && enrolled
                > 0 && after.report.epoch.spec_epoch() is Some ==> after.report.enrolment
                == EnrolmentAtBoot::Enrolled
            &&& repair == Repair::Done(Repaired::Nothing) && enrolled == 0
                ==> after.report.enrolment == EnrolmentAtBoot::Empty
            &&& repair != Repair::Done(Repaired::Nothing) ==> after.report.enrolment
                == EnrolmentAtBoot::Unavailable
        }),
{
}

/// A count that lands is what the part then holds, and the last words a run
/// left go out under it; one that does not is reported, and the words are not
/// written.
pub proof fn law_the_last_words_go_out_under_the_count(state: BootState, why: Refused)
    requires
        state.stage == Stage::Count,
    ensures
        ({
            let landed = state.answered(BootEvent::Landed);
            let refused = state.answered(BootEvent::NotLanded(why));
            &&& landed.boots == Held::Present(state.report.boot)
            &&& landed.report.boot_refused is None
            &&& landed.asks() == if state.words {
                BootAction::WritePanic(state.report.boot)
            } else {
                BootAction::Finish
            }
            &&& refused.boots == state.boots
            &&& refused.report.boot_refused == Some(why)
            &&& refused.asks() == BootAction::Finish
            &&& refused.report.panic_recorded == if state.words {
                Some(PanicRecorded::WithoutABootCount)
            } else {
                None
            }
        }),
{
}

/// Last words that land are reported so, and those that do not say why.
pub proof fn law_last_words_are_reported(state: BootState, why: Refused)
    requires
        state.stage == Stage::Panic,
    ensures
        state.answered(BootEvent::Landed).report.panic_recorded == Some(PanicRecorded::Landed),
        state.answered(BootEvent::NotLanded(why)).report.panic_recorded == Some(
            PanicRecorded::Refused(why),
        ),
        state.answered(BootEvent::Landed).asks() == BootAction::Finish,
        state.answered(BootEvent::NotLanded(why)).asks() == BootAction::Finish,
        state.answered(BootEvent::Landed).report.epoch == state.report.epoch,
        state.answered(BootEvent::Landed).boots == state.boots,
{
}

/// Without an epoch the dedup windows are restarted and the count goes on.
pub proof fn law_a_boot_without_an_epoch_still_counts(state: BootState)
    requires
        state.stage == Stage::Commands,
    ensures
        state.asks() == BootAction::RestartCommands,
        state.answered(BootEvent::Landed).asks() == BootAction::WriteBootCount(state.report.boot),
        state.answered(BootEvent::Landed).report == state.report,
        state.answered(BootEvent::Landed).record == state.record,
{
}

/// The windows restart: a release keeps everything but its moment, which is the
/// boot's start; the cuts keep their number and the boot that kept them, each
/// moved to the start; and a record that is not there stays as it read.
pub proof fn law_restarted_windows_keep_what_they_hold(
    release: Held<CommsRelease>,
    kept: Held<CommsRelease>,
    cuts: Held<CutsRecord>,
    moved: Held<CutsRecord>,
)
    requires
        release_restarted(release, kept),
        cuts_restarted(cuts, moved),
    ensures
        !(release is Present) ==> kept == release,
        release matches Held::Present(before) ==> (kept matches Held::Present(after) && {
            &&& before@ is None <==> after@ is None
            &&& before@ matches Some(was) ==> {
                let is = after@->0;
                &&& is.authorised_at.0 == 0
                &&& is.digest == was.digest
                &&& is.version == was.version
                &&& is.image_len == was.image_len
            }
        }),
        !(cuts is Present) ==> moved == cuts,
        cuts matches Held::Present(before) ==> (moved matches Held::Present(after) && after.boot
            == before.boot && (after.cuts.0 is Some <==> before.cuts.0 is Some) && (
        after.cuts.1 is Some <==> before.cuts.1 is Some) && (after.cuts.2 is Some
            <==> before.cuts.2 is Some) && (after.cuts.0 matches Some(at) ==> at.0 == 0) && (
        after.cuts.1 matches Some(at) ==> at.0 == 0) && (after.cuts.2 matches Some(at) ==> at.0
            == 0)),
{
}

} // verus!
