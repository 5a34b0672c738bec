//! The module rail sequence: how the comms processor's rail and its reset line
//! `EN` move, and the ladder's rungs that move them.
//!
//! Two facts about revision A of the board decide the shape. `EN` has only an
//! RC delay, so a short cut can bring the rail back with the module never
//! reset: `EN` is held low from before the rail drops until after it has
//! settled. And switching the rail on after minutes off corrupts the
//! controller, while short cycles pass: on revision A no cut is longer than
//! five seconds, and the ladder's third rung is not executed.
//!
//! Nothing here touches a pin: what is decided comes out as [`Lines`] and
//! [`RailEvent`]s.

use vstd::prelude::*;

use crate::cuts::{
    goes_before, next_slot, of_the_hour, recent, remembered, remembered_times, CarriedCuts,
    RecentCuts,
};
use crate::revision::{RailThroughReset, Revision, ThirdRung};
use crate::tick::{Millis, Tick};

verus! {

/// What the rail line is asked to be.
#[derive(Debug, Clone, Copy, PartialEq, Eq, Structural)]
pub enum RailLine {
    /// The module is powered.
    On,
    /// The module is not.
    Off,
}

/// What the `EN` line is asked to be. Never driven high: the board's own
/// pull-up raises it when it is released, and a pin driven high into an
/// unpowered module back-powers it.
#[derive(Debug, Clone, Copy, PartialEq, Eq, Structural)]
pub enum EnLine {
    /// Driven low: the module is held in reset.
    HeldLow,
    /// High-impedance: the board's pull-up owns it.
    Released,
}

/// What the `BOOT` strap is asked to be. Never driven high, for the same
/// reason as `EN`: low across a reset selects the ROM's download mode.
#[derive(Debug, Clone, Copy, PartialEq, Eq, Structural)]
pub enum BootLine {
    /// Driven low: the ROM reads it at the reset and enters download mode.
    HeldLow,
    /// High-impedance: a normal boot.
    Released,
}

/// The three lines, as they should be driven right now.
#[derive(Debug, Clone, Copy, PartialEq, Eq, Structural)]
pub struct Lines {
    /// The rail.
    pub rail: RailLine,
    /// `EN`.
    pub en: EnLine,
    /// `BOOT`.
    pub boot: BootLine,
}

/// Which boot a module reset is for.
#[derive(Debug, Clone, Copy, PartialEq, Eq, Structural)]
pub enum ModuleBoot {
    /// The straps released: the module boots its firmware.
    Normal,
    /// The strap held low across the reset: the ROM's serial download mode.
    Download,
}

/// What a step of the sequence wants written down.
#[derive(Debug, Clone, Copy, PartialEq, Eq, Structural)]
pub enum RailEvent {
    /// The rail was cut and restored, with the count of cycles in the last
    /// hour, this one included.
    PowerCycled {
        /// How many cycles in the last hour.
        count: u8,
    },
    /// The rail is up and settled, and `EN` has been released: the module is
    /// booting and the link may be configured.
    Settled,
    /// The ladder asked for its third rung and this board does not execute it.
    Unrecoverable,
}

/// What a recovery request did.
#[derive(Debug, Clone, Copy, PartialEq, Eq, Structural)]
#[must_use]
pub enum Recovery {
    /// A cut has started.
    Cycling {
        /// How many cycles in the last hour, this one included.
        count: u8,
        /// How long the rail will be off.
        off_for: Millis,
    },
    /// The third rung on a board that does not execute it: nothing moved, and
    /// comms unrecoverable is to be raised.
    LeftOnAndRaised,
    /// A cut is already in progress; nothing changed.
    Busy,
    /// The cut was due and not made, and nothing moved: the count it would
    /// have added could not be kept first, or the module was reset while it
    /// went out. The ladder asks again.
    Deferred,
}

/// What a recovery request plans, before anything moves.
#[derive(Debug, PartialEq, Eq, Structural)]
#[must_use]
pub enum Plan {
    /// The third rung on a board that does not execute it.
    LeftOnAndRaised,
    /// A cut is already in progress; nothing changes.
    Busy,
    /// A cut, made once the count it adds is kept.
    Cut(PlannedCut),
}

/// A cut planned and not made: the sequencer as it was asked, the instant of
/// the cut and the rung's off time. [`cuts`](Self::cuts) is the count to keep
/// first, and [`make`](Self::make) the only way to the cut; a plan dropped
/// instead moves nothing. Not `Copy`, so a plan is made once.
#[derive(Debug, PartialEq, Eq, Structural)]
#[must_use]
pub struct PlannedCut {
    asked: RailSequencer,
    at: Tick,
    off_for: Millis,
}

/// What a request to reset the module, rail on, did.
#[derive(Debug, Clone, Copy, PartialEq, Eq, Structural)]
#[must_use]
pub enum ModuleReset {
    /// `EN` is held low; the rail stays on, and the module boots when it is
    /// released.
    Holding,
    /// The rail is off or in a cycle: nothing to reset.
    NotPowered,
}

/// The cut a recovery cycle makes, in milliseconds.
pub const CUT: u64 = 5_000;

/// How long the rail settles before `EN` is released, in milliseconds. The RC
/// on `EN` is ten; this leaves the rail's own rise well behind.
pub const SETTLE: u64 = 100;

/// How long `EN` is held for a reset with the rail on, in milliseconds.
pub const EN_HELD: u64 = 50;

/// How long the strap stays low after `EN` is released, in milliseconds: the
/// ROM reads its straps as it comes out of reset.
pub const STRAP_HELD: u64 = 100;

/// Where the sequence is.
#[derive(Debug, Clone, Copy, PartialEq, Eq, Structural)]
pub enum Phase {
    /// Rail off, `EN` held low, until the moment the rail comes back.
    Cut {
        /// When the rail comes back.
        until: Tick,
        /// How long after the lines moved that is.
        off_for: Millis,
    },
    /// Rail on, `EN` held low, until the rail has settled; the strap held with
    /// it when the boot is for download.
    Rising {
        /// When `EN` is released.
        until: Tick,
        /// Whether the strap is held.
        strap: bool,
    },
    /// Rail on, `EN` released, the strap still low until the ROM has read it.
    Strapping {
        /// When the strap is released.
        until: Tick,
    },
    /// Rail on, `EN` released.
    Up,
    /// Rail off and nothing scheduled: the state before the first power-on.
    Off,
}

/// The moment `by` milliseconds after `now`, or `now` at the end of the tick.
pub open spec fn in_a_while(now: Tick, by: u64) -> Tick {
    match now.spec_after(Millis(by)) {
        Some(at) => at,
        None => now,
    }
}

/// The sequencer's state.
pub struct RailModel {
    /// The board.
    pub revision: Revision,
    /// Where the sequence is.
    pub phase: Phase,
    /// When the last cycles started.
    pub cycles: RecentCuts,
}

/// A planned cut's state.
pub struct PlannedModel {
    /// The sequencer as it was asked.
    pub asked: RailModel,
    /// When.
    pub at: Tick,
    /// The rung's off time.
    pub off_for: Millis,
}

/// What a recovery request plans.
pub enum PlanModel {
    /// The third rung, not executed.
    LeftOnAndRaised,
    /// Something is moving already.
    Busy,
    /// A cut.
    Cut(PlannedModel),
}

impl RailModel {
    /// Before the first power-on: the rail as the board leaves it.
    pub open spec fn fresh(revision: Revision) -> Self {
        RailModel {
            revision,
            phase: match revision.spec_rail_through_reset() {
                RailThroughReset::Off => Phase::Off,
                RailThroughReset::On => Phase::Up,
            },
            cycles: RecentCuts(None, None, None),
        }
    }

    /// No cut under way outlasts the board's bound.
    pub open spec fn sound(self) -> bool {
        self.phase matches Phase::Cut { off_for, .. } ==> off_for.0
            <= self.revision.spec_longest_rail_off().0
    }

    /// The state that starts from the cuts a previous boot kept. On a board
    /// whose rail is off through a reset, the reset that began this boot is a
    /// cut at `now`, and so is one for every boot the record missed.
    pub open spec fn carrying(self, carried: CarriedCuts, now: Tick) -> Self {
        RailModel {
            cycles: match self.revision.spec_rail_through_reset() {
                RailThroughReset::Off => remembered_times(
                    carried.cuts,
                    now,
                    (carried.missed + 1) as nat,
                ),
                RailThroughReset::On => carried.cuts,
            },
            ..self
        }
    }

    /// Powered at boot: a rail that is off rises.
    pub open spec fn powered(self, now: Tick) -> Self {
        if self.phase is Off {
            RailModel { phase: Phase::Rising { until: in_a_while(now, SETTLE), strap: false }, ..self }
        } else {
            self
        }
    }

    /// How many cycles are recent at `now`.
    pub open spec fn counted(self, now: Tick) -> nat {
        recent(self.cycles.slots(), now).len()
    }

    /// What a recovery asked at `now` plans.
    pub open spec fn plan(self, now: Tick) -> PlanModel {
        if self.phase is Cut || self.phase is Rising || self.phase is Strapping {
            PlanModel::Busy
        } else if self.counted(now) >= 3 {
            match self.revision.spec_third_rung() {
                ThirdRung::LeaveOnAndRaise => PlanModel::LeftOnAndRaised,
                ThirdRung::Cut(off_for) => PlanModel::Cut(
                    PlannedModel { asked: self, at: now, off_for },
                ),
            }
        } else {
            PlanModel::Cut(PlannedModel { asked: self, at: now, off_for: Millis(CUT) })
        }
    }

    /// How long a cut that asks for `off_for` lasts: never longer than the
    /// board allows.
    pub open spec fn bounded(self, off_for: Millis) -> Millis {
        if off_for.0 > self.revision.spec_longest_rail_off().0 {
            self.revision.spec_longest_rail_off()
        } else {
            off_for
        }
    }

    /// The state once a cut is made at `now`.
    pub open spec fn cutting(self, now: Tick, off_for: Millis) -> Self {
        let off_for = self.bounded(off_for);
        RailModel {
            cycles: remembered(self.cycles, now),
            phase: Phase::Cut { until: in_a_while(now, off_for.0), off_for },
            ..self
        }
    }

    /// The state once a module reset is asked at `now`, and what it did. A
    /// reset asked while the rail is still settling keeps the settling's
    /// deadline when it is the later one.
    pub open spec fn resetting(self, now: Tick, boot: ModuleBoot) -> (Self, ModuleReset) {
        let held = in_a_while(now, EN_HELD);
        match self.phase {
            Phase::Cut { .. } | Phase::Off => (self, ModuleReset::NotPowered),
            Phase::Rising { until, .. } => (
                RailModel {
                    phase: Phase::Rising {
                        until: if until.0 > held.0 {
                            until
                        } else {
                            held
                        },
                        strap: boot == ModuleBoot::Download,
                    },
                    ..self
                },
                ModuleReset::Holding,
            ),
            Phase::Up | Phase::Strapping { .. } => (
                RailModel {
                    phase: Phase::Rising { until: held, strap: boot == ModuleBoot::Download },
                    ..self
                },
                ModuleReset::Holding,
            ),
        }
    }

    /// The state at `now`, and what getting there wants written down.
    pub open spec fn ticking(self, now: Tick) -> (Self, Option<RailEvent>) {
        match self.phase {
            Phase::Cut { until, .. } if now.0 >= until.0 => (
                RailModel {
                    phase: Phase::Rising { until: in_a_while(now, SETTLE), strap: false },
                    ..self
                },
                Some(RailEvent::PowerCycled { count: self.counted(now) as u8 }),
            ),
            Phase::Rising { until, strap } if now.0 >= until.0 => (
                RailModel {
                    phase: if strap {
                        Phase::Strapping { until: in_a_while(now, STRAP_HELD) }
                    } else {
                        Phase::Up
                    },
                    ..self
                },
                Some(RailEvent::Settled),
            ),
            Phase::Strapping { until } if now.0 >= until.0 => (
                RailModel { phase: Phase::Up, ..self },
                None,
            ),
            _ => (self, None),
        }
    }

    /// How the three lines are driven.
    pub open spec fn lines(self) -> Lines {
        Lines {
            rail: if self.phase is Cut || self.phase is Off {
                RailLine::Off
            } else {
                RailLine::On
            },
            en: if self.phase is Cut || self.phase is Rising {
                EnLine::HeldLow
            } else {
                EnLine::Released
            },
            boot: match self.phase {
                Phase::Rising { strap: true, .. } => BootLine::HeldLow,
                Phase::Strapping { .. } => BootLine::HeldLow,
                _ => BootLine::Released,
            },
        }
    }

    /// Whether the rail is up and settled.
    pub open spec fn settled(self) -> bool {
        self.phase is Up || self.phase is Strapping
    }
}

/// What making a planned cut at `at` on a sequencer comes to: a sequencer that
/// moved since the plan is left as it is.
pub open spec fn making(plan: PlannedModel, sequencer: RailModel, at: Tick) -> (RailModel, Recovery) {
    if sequencer != plan.asked {
        (sequencer, Recovery::Deferred)
    } else {
        let after = sequencer.cutting(at, plan.off_for);
        (
            after,
            Recovery::Cycling {
                count: after.counted(at) as u8,
                off_for: sequencer.bounded(plan.off_for),
            },
        )
    }
}

/// The sequence, for one board revision.
#[derive(Debug, Clone, Copy, PartialEq, Eq, Structural)]
pub struct RailSequencer {
    revision: Revision,
    phase: Phase,
    cycles: RecentCuts,
}

impl View for RailSequencer {
    type V = RailModel;

    closed spec fn view(&self) -> RailModel {
        RailModel { revision: self.revision, phase: self.phase, cycles: self.cycles }
    }
}

impl View for PlannedCut {
    type V = PlannedModel;

    closed spec fn view(&self) -> PlannedModel {
        PlannedModel { asked: self.asked@, at: self.at, off_for: self.off_for }
    }
}

impl View for Plan {
    type V = PlanModel;

    open spec fn view(&self) -> PlanModel {
        match *self {
            Plan::LeftOnAndRaised => PlanModel::LeftOnAndRaised,
            Plan::Busy => PlanModel::Busy,
            Plan::Cut(cut) => PlanModel::Cut(cut@),
        }
    }
}

/// The moment `by` milliseconds after `now`, or `now` at the end of the tick.
fn after_a_while(now: Tick, by: u64) -> (r: Tick)
    ensures
        r == in_a_while(now, by),
{
    match now.after(Millis::from_millis(by)) {
        Some(at) => at,
        None => now,
    }
}

impl PlannedCut {
    /// The cuts of the last hour with this one, to keep before it is made: the
    /// cuts the sequencer holds once [`make`](Self::make) has made it.
    pub fn cuts(&self) -> (r: RecentCuts)
        ensures
            r == of_the_hour(self@.asked.cutting(self@.at, self@.off_for).cycles, self@.at),
    {
        let mut cut = self.asked;
        let _counted = cut.cut(self.at, self.off_for);
        cut.recent_cuts(self.at)
    }

    /// Make the cut, its count kept: the lines move at `at`, the whole off
    /// time runs from there, and the cut counts for the hour from there. A
    /// sequencer that moved since the plan is left as it is and the cut is
    /// [`Recovery::Deferred`].
    pub fn make(self, sequencer: &mut RailSequencer, at: Tick) -> (r: Recovery)
        ensures
            (final(sequencer)@, r) == making(self@, old(sequencer)@, at),
    {
        if *sequencer != self.asked {
            return Recovery::Deferred;
        }
        let (count, off_for) = sequencer.cut(at, self.off_for);
        Recovery::Cycling { count, off_for }
    }
}

impl RailSequencer {
    /// Before the first power-on: the rail as the board leaves it through
    /// reset, off on revision A and on on revision B.
    pub fn new(revision: Revision) -> (r: Self)
        ensures
            r@ == RailModel::fresh(revision),
    {
        let phase = match revision.rail_through_reset() {
            RailThroughReset::Off => Phase::Off,
            RailThroughReset::On => Phase::Up,
        };
        RailSequencer { revision, phase, cycles: RecentCuts::none() }
    }

    /// Start from the cuts a previous boot kept, carried as made at this
    /// boot's start. On a board whose rail is off through a reset, the reset
    /// that began this boot cut the rail too, and so did the one that began
    /// every boot the record missed; each is a cut at `now`.
    pub fn carry(&mut self, carried: CarriedCuts, now: Tick)
        ensures
            final(self)@ == old(self)@.carrying(carried, now),
    {
        self.cycles = carried.cuts;
        match self.revision.rail_through_reset() {
            RailThroughReset::Off => {
                // Past as many as there are slots, every slot already holds a
                // cut at `now`.
                let bounded: u32 = if carried.missed < 3 {
                    carried.missed
                } else {
                    3
                };
                let mut n: u32 = 0;
                while n <= bounded
                    invariant
                        n <= bounded + 1,
                        bounded <= 3,
                        self.revision == old(self).revision,
                        self.phase == old(self).phase,
                        self.cycles == remembered_times(carried.cuts, now, n as nat),
                    decreases bounded + 1 - n,
                {
                    self.remember_cut(now);
                    n = n + 1;
                }
                proof {
                    if carried.missed > 3 {
                        lemma_full_of_now(carried.cuts, now, 4);
                        lemma_full_of_now(carried.cuts, now, (carried.missed + 1) as nat);
                    }
                }
            },
            RailThroughReset::On => {},
        }
    }

    /// The cuts of the last hour as of `now`, to keep: they go out whenever
    /// they differ from what the part holds, before the lines move.
    pub fn recent_cuts(&self, now: Tick) -> (r: RecentCuts)
        ensures
            r == of_the_hour(self@.cycles, now),
    {
        self.cycles.within_the_hour(now)
    }

    /// Power the module at boot: the rail on with `EN` held low, released once
    /// the rail has settled. On a board whose rail is already on, the module
    /// is booting by itself and this takes ownership without a cut.
    pub fn power_on(&mut self, now: Tick) -> (r: Lines)
        ensures
            final(self)@ == old(self)@.powered(now),
            r == old(self)@.powered(now).lines(),
    {
        if let Phase::Off = self.phase {
            self.phase = Phase::Rising { until: after_a_while(now, SETTLE), strap: false };
        }
        self.lines()
    }

    /// The ladder asks for a recovery at `now`: a cut, or the third rung.
    /// Nothing moves here; a cut is made by [`PlannedCut::make`] once the
    /// count it adds is kept.
    pub fn plan_recovery(&self, now: Tick) -> (r: Plan)
        ensures
            r@ == self@.plan(now),
    {
        match self.phase {
            Phase::Cut { .. } | Phase::Rising { .. } | Phase::Strapping { .. } => {
                return Plan::Busy;
            },
            Phase::Up | Phase::Off => {},
        }
        let off_for = if self.cycles_within(now) >= 3 {
            match self.revision.third_rung() {
                ThirdRung::LeaveOnAndRaise => {
                    return Plan::LeftOnAndRaised;
                },
                ThirdRung::Cut(off_for) => off_for,
            }
        } else {
            Millis::from_millis(CUT)
        };
        Plan::Cut(PlannedCut { asked: *self, at: now, off_for })
    }

    /// Reset the module with the rail on: `EN` held low for [`EN_HELD`], then
    /// released, which is a module boot the link sees as `Settled`.
    pub fn reset_module(&mut self, now: Tick, boot: ModuleBoot) -> (r: ModuleReset)
        ensures
            (final(self)@, r) == old(self)@.resetting(now, boot),
    {
        let held = after_a_while(now, EN_HELD);
        let until = match self.phase {
            // A reset asked while the rail is still settling keeps the
            // settling's deadline when it is the later one: `EN` is never
            // released before the rail has settled.
            Phase::Rising { until, .. } => if until.0 > held.0 {
                until
            } else {
                held
            },
            Phase::Up | Phase::Strapping { .. } => held,
            Phase::Cut { .. } | Phase::Off => {
                return ModuleReset::NotPowered;
            },
        };
        let strap = match boot {
            ModuleBoot::Normal => false,
            ModuleBoot::Download => true,
        };
        self.phase = Phase::Rising { until, strap };
        ModuleReset::Holding
    }

    /// Advance by time: the rail comes back at the end of a cut, and `EN` is
    /// released once the rail has settled.
    pub fn tick(&mut self, now: Tick) -> (r: Option<RailEvent>)
        ensures
            (final(self)@, r) == old(self)@.ticking(now),
    {
        match self.phase {
            Phase::Cut { until, .. } => {
                if now.0 >= until.0 {
                    self.phase = Phase::Rising { until: after_a_while(now, SETTLE), strap: false };
                    let count: u8 = self.cycles_within(now) as u8;
                    return Some(RailEvent::PowerCycled { count });
                }
                None
            },
            Phase::Rising { until, strap } => {
                if now.0 >= until.0 {
                    // `EN` released, with the strap still low when it was
                    // held: the ROM reads it as the reset lets go, and the
                    // strap is released on its own clock.
                    self.phase = if strap {
                        Phase::Strapping { until: after_a_while(now, STRAP_HELD) }
                    } else {
                        Phase::Up
                    };
                    return Some(RailEvent::Settled);
                }
                None
            },
            Phase::Strapping { until } => {
                if now.0 >= until.0 {
                    self.phase = Phase::Up;
                }
                None
            },
            Phase::Up | Phase::Off => None,
        }
    }

    /// How the three lines should be driven right now.
    pub fn lines(&self) -> (r: Lines)
        ensures
            r == self@.lines(),
    {
        match self.phase {
            Phase::Cut { .. } => Lines {
                rail: RailLine::Off,
                en: EnLine::HeldLow,
                boot: BootLine::Released,
            },
            Phase::Rising { strap, .. } => Lines {
                rail: RailLine::On,
                en: EnLine::HeldLow,
                boot: if strap {
                    BootLine::HeldLow
                } else {
                    BootLine::Released
                },
            },
            Phase::Strapping { .. } => Lines {
                rail: RailLine::On,
                en: EnLine::Released,
                boot: BootLine::HeldLow,
            },
            Phase::Up => Lines {
                rail: RailLine::On,
                en: EnLine::Released,
                boot: BootLine::Released,
            },
            Phase::Off => Lines {
                rail: RailLine::Off,
                en: EnLine::Released,
                boot: BootLine::Released,
            },
        }
    }

    /// Whether the rail is up and settled, which is when the link may be
    /// configured.
    pub fn settled(&self) -> (r: bool)
        ensures
            r == self@.settled(),
    {
        match self.phase {
            Phase::Up | Phase::Strapping { .. } => true,
            Phase::Cut { .. } | Phase::Rising { .. } | Phase::Off => false,
        }
    }

    /// The cut at `now`, and the count of the last hour with it.
    pub fn cut(&mut self, now: Tick, off_for: Millis) -> (r: (u8, Millis))
        ensures
            final(self)@ == old(self)@.cutting(now, off_for),
            r.0 == old(self)@.cutting(now, off_for).counted(now),
            r.1 == old(self)@.bounded(off_for),
    {
        // The cap is the board's, whatever the rung asked for.
        let longest = self.revision.longest_rail_off();
        let bounded = if off_for.0 > longest.0 {
            longest
        } else {
            off_for
        };
        self.remember_cut(now);
        self.phase = Phase::Cut { until: after_a_while(now, bounded.0), off_for: bounded };
        let count: usize = self.cycles_within(now);
        (count as u8, bounded)
    }

    /// A cut at `now`, remembered.
    pub fn remember_cut(&mut self, now: Tick)
        ensures
            final(self)@ == (RailModel { cycles: remembered(old(self)@.cycles, now), ..old(self)@ }),
    {
        self.cycles = self.cycles.remember(now);
    }

    /// How many cycles started at most an hour before `now`.
    pub fn cycles_within(&self, now: Tick) -> (r: usize)
        ensures
            r == self@.counted(now),
            r <= 3,
    {
        self.cycles.recent_count(now)
    }
}

/// After as many cuts at one moment as there are slots, one more changes
/// nothing.
proof fn lemma_full_of_now(cuts: RecentCuts, now: Tick, n: nat)
    requires
        n >= 4,
    ensures
        remembered_times(cuts, now, n) == remembered_times(cuts, now, 4),
    decreases n,
{
    reveal_with_fuel(next_slot, 4);
    reveal_with_fuel(remembered_times, 6);
    if n > 4 {
        lemma_full_of_now(cuts, now, (n - 1) as nat);
        lemma_one_more(cuts, now);
    }
}

/// A fifth cut at one moment leaves the slots as four did.
proof fn lemma_one_more(cuts: RecentCuts, now: Tick)
    ensures
        remembered(remembered_times(cuts, now, 4), now) == remembered_times(cuts, now, 4),
{
    reveal_with_fuel(remembered_times, 6);
    let one = remembered(cuts, now);
    let two = remembered(one, now);
    let three = remembered(two, now);
    let four = remembered(three, now);
    lemma_slot_choice(cuts);
    lemma_slot_choice(one);
    lemma_slot_choice(two);
    lemma_slot_choice(three);
    lemma_slot_choice(four);
}

/// Which of three slots a new cut is written over.
proof fn lemma_slot_choice(cuts: RecentCuts)
    ensures
        next_slot(cuts.slots()) == {
            let best = if goes_before(cuts.1, cuts.0) {
                1int
            } else {
                0int
            };
            if goes_before(
                cuts.2,
                if best == 1 {
                    cuts.1
                } else {
                    cuts.0
                },
            ) {
                2int
            } else {
                best
            }
        },
{
    reveal_with_fuel(next_slot, 4);
    assert(cuts.slots().drop_last() =~= seq![cuts.0, cuts.1]);
    assert(cuts.slots().drop_last().drop_last() =~= seq![cuts.0]);
}

} // verus!
