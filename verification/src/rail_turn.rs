//! The rail task's turn: the sequencer, what the part holds of the ladder's
//! cuts, and the cut waiting on its count. A turn comes every period with the
//! link's request and the recorder's answer, and what it decides is the words
//! to the link, the keep to hand the recorder, and the lines.

use vstd::prelude::*;

use crate::cuts::{of_the_hour, CutsOnPart, RecentCuts};
use crate::rail::{
    making, Lines, ModuleBoot, ModuleReset, Plan, PlanModel, PlannedCut, PlannedModel, RailEvent,
    RailModel, RailSequencer, Recovery,
};
use crate::tick::Tick;

verus! {

/// What the link asks of the rail.
#[derive(Debug, Clone, Copy, PartialEq, Eq, Structural)]
pub enum RailRequest {
    /// Recover, by whatever rung the sequencer is at.
    Recover,
    /// Reset the module with the rail on.
    ResetModule(ModuleBoot),
}

/// The ladder's cuts, for the recorder to keep.
#[derive(Debug, Clone, Copy, PartialEq, Eq, Structural)]
pub enum Keep {
    /// A planned cut's count: it supersedes any keep in flight, because the
    /// recorder writes in order and the part ends with these, and the cut
    /// waits on its answer.
    Cut(RecentCuts),
    /// Cuts the part is not known to hold. Started only when no other keep is
    /// in flight.
    Changed(RecentCuts),
}

impl Keep {
    /// The cuts to keep, in the mathematical sense.
    pub open spec fn spec_cuts(self) -> RecentCuts {
        match self {
            Keep::Cut(cuts) => cuts,
            Keep::Changed(cuts) => cuts,
        }
    }

    /// The cuts to keep.
    pub fn cuts(self) -> (r: RecentCuts)
        ensures
            r == self.spec_cuts(),
    {
        match self {
            Keep::Cut(cuts) => cuts,
            Keep::Changed(cuts) => cuts,
        }
    }
}

/// Why a keep did not land.
#[derive(Debug, Clone, Copy, PartialEq, Eq, Structural)]
pub enum NotKept {
    /// This boot has no store.
    NoStore,
    /// The part refused the write.
    Refused,
    /// The recorder did not answer inside its deadline.
    Late,
}

/// A keep and what became of it, as the recorder answered.
pub type KeepAnswer = (Keep, Result<(), NotKept>);

/// What one turn asks for.
#[derive(Debug, Clone, Copy, PartialEq, Eq, Structural)]
#[must_use]
pub struct Turn {
    /// What the link's recovery request came to, to tell it.
    pub recovered: Option<Recovery>,
    /// What its module reset came to, to tell it.
    pub reset: Option<ModuleReset>,
    /// What the sequencer did by time.
    pub event: Option<RailEvent>,
    /// The cuts to hand the recorder.
    pub keep: Option<Keep>,
}

/// The rail task's state.
pub struct RailTask {
    /// The sequencer.
    pub sequencer: RailModel,
    /// What the part holds of the cuts, or nothing on a boot with no store.
    pub on_part: Option<CutsOnPart>,
    /// The cut planned and waiting on its count.
    pub planned: Option<PlannedModel>,
}

impl RailTask {
    /// A module reset comes first: it is served whatever the recorder
    /// answered, and a cut planned before it is dropped.
    pub open spec fn asked(self, now: Tick, request: Option<RailRequest>) -> (
        Self,
        Option<Recovery>,
        Option<ModuleReset>,
    ) {
        match request {
            Some(RailRequest::ResetModule(boot)) => {
                let (sequencer, reset) = self.sequencer.resetting(now, boot);
                (
                    RailTask { sequencer, planned: None, ..self },
                    if self.planned is Some {
                        Some(Recovery::Deferred)
                    } else {
                        None
                    },
                    Some(reset),
                )
            },
            _ => (self, None, None),
        }
    }

    /// What the part is known to hold once `answer` came.
    pub open spec fn told(self, now: Tick, answer: KeepAnswer) -> Option<CutsOnPart> {
        match self.on_part {
            Some(_) => Some(
                match answer.1 {
                    Ok(_) => CutsOnPart { held: Some(answer.0.spec_cuts()), retry_at: None },
                    Err(_) => CutsOnPart::spec_unknown(now),
                },
            ),
            None => None,
        }
    }

    /// Then the answer: what the part holds, and the planned cut made once its
    /// own count has landed, deferred otherwise.
    pub open spec fn answered(self, now: Tick, answer: Option<KeepAnswer>) -> (
        Self,
        Option<Recovery>,
    ) {
        match answer {
            None => (self, None),
            Some((keep, kept)) => {
                let on_part = self.told(now, (keep, kept));
                match (keep, self.planned) {
                    (Keep::Cut(_), Some(cut)) => match kept {
                        Ok(_) => {
                            let (sequencer, recovery) = making(cut, self.sequencer, now);
                            (RailTask { sequencer, on_part, planned: None }, Some(recovery))
                        },
                        Err(_) => (
                            RailTask { on_part, planned: None, ..self },
                            Some(Recovery::Deferred),
                        ),
                    },
                    _ => (RailTask { on_part, ..self }, None),
                }
            },
        }
    }

    /// Then a recovery, planned and its count handed out, unless a cut was
    /// waiting when the turn began: then it is the same request, and the cut's
    /// answer answers it.
    pub open spec fn recovering(self, now: Tick, request: Option<RailRequest>, waiting: bool) -> (
        Self,
        Option<Recovery>,
        Option<Keep>,
    ) {
        if request == Some(RailRequest::Recover) && !waiting {
            match self.sequencer.plan(now) {
                PlanModel::Cut(cut) => (
                    RailTask { planned: Some(cut), ..self },
                    None,
                    Some(
                        Keep::Cut(
                            of_the_hour(cut.asked.cutting(cut.at, cut.off_for).cycles, cut.at),
                        ),
                    ),
                ),
                PlanModel::LeftOnAndRaised => (self, Some(Recovery::LeftOnAndRaised), None),
                PlanModel::Busy => (self, Some(Recovery::Busy), None),
            }
        } else {
            (self, None, None)
        }
    }

    /// One turn: the reset, the answer, the recovery, then time, and the cuts
    /// the part is not known to hold, while no cut waits.
    pub open spec fn turning(
        self,
        now: Tick,
        request: Option<RailRequest>,
        answer: Option<KeepAnswer>,
    ) -> (Self, Turn) {
        let waiting = self.planned is Some;
        let (first, dropped, reset) = self.asked(now, request);
        let (second, made) = first.answered(now, answer);
        let (third, planned, handed) = second.recovering(now, request, waiting);
        let (sequencer, event) = third.sequencer.ticking(now);
        let after = RailTask { sequencer, ..third };
        let cuts = of_the_hour(sequencer.cycles, now);
        let changed = after.planned is None && (after.on_part matches Some(part) && part.spec_due(
            cuts,
            now,
        ));
        (
            after,
            Turn {
                recovered: if planned is Some {
                    planned
                } else if made is Some {
                    made
                } else {
                    dropped
                },
                reset,
                event,
                keep: if changed {
                    Some(Keep::Changed(cuts))
                } else {
                    handed
                },
            },
        )
    }
}

/// The rail task's state: the sequencer, what the part holds of the ladder's
/// cuts, or nothing on a boot with no store, and the cut planned and waiting
/// on its count.
#[derive(Debug)]
pub struct Rail {
    sequencer: RailSequencer,
    on_part: Option<CutsOnPart>,
    planned: Option<PlannedCut>,
}

impl View for Rail {
    type V = RailTask;

    closed spec fn view(&self) -> RailTask {
        RailTask {
            sequencer: self.sequencer@,
            on_part: self.on_part,
            planned: match self.planned {
                Some(cut) => Some(cut@),
                None => None,
            },
        }
    }
}

impl Rail {
    /// The rail as the boot leaves it: powered, its cuts carried and kept.
    pub fn new(sequencer: RailSequencer, on_part: Option<CutsOnPart>) -> (r: Self)
        ensures
            r@ == (RailTask { sequencer: sequencer@, on_part, planned: None }),
    {
        Rail { sequencer, on_part, planned: None }
    }

    /// One turn at `now`, with the link's request and the recorder's answer.
    ///
    /// A module reset comes first: it is served whatever the recorder
    /// answered, and a cut planned before it is not made after it. Then the
    /// answer: what the part holds, and the planned cut made once its own
    /// count has landed, deferred otherwise. Then a recovery, planned and its
    /// count handed out; a second one while a cut waits is the same request.
    /// Then time, and the cuts the part is not known to hold, while no cut
    /// waits.
    pub fn turn(
        &mut self,
        now: Tick,
        request: Option<RailRequest>,
        answer: Option<KeepAnswer>,
    ) -> (r: Turn)
        ensures
            (final(self)@, r) == old(self)@.turning(now, request, answer),
    {
        let mut turn = Turn { recovered: None, reset: None, event: None, keep: None };
        let waiting = self.planned.is_some();
        match request {
            Some(RailRequest::ResetModule(boot)) => {
                if waiting {
                    turn.recovered = Some(Recovery::Deferred);
                }
                self.planned = None;
                turn.reset = Some(self.sequencer.reset_module(now, boot));
            },
            Some(RailRequest::Recover) | None => {},
        }
        let ghost first = self@;
        proof {
            assert((first, turn.recovered, turn.reset) == old(self)@.asked(now, request));
        }
        if let Some((keep, kept)) = answer {
            if let Some(on_part) = self.on_part {
                let mut known = on_part;
                match kept {
                    Ok(_) => known.landed(keep.cuts()),
                    Err(_) => known.unknown(now),
                }
                self.on_part = Some(known);
            }
            match keep {
                Keep::Cut(_) => {
                    if let Some(cut) = self.planned.take() {
                        turn.recovered = Some(
                            match kept {
                                Ok(_) => cut.make(&mut self.sequencer, now),
                                Err(_) => Recovery::Deferred,
                            },
                        );
                    }
                },
                Keep::Changed(_) => {},
            }
        }
        let ghost second = self@;
        proof {
            assert(second == first.answered(now, answer).0);
        }
        match request {
            Some(RailRequest::Recover) => {
                if !waiting {
                    match self.sequencer.plan_recovery(now) {
                        Plan::Cut(cut) => {
                            turn.keep = Some(Keep::Cut(cut.cuts()));
                            self.planned = Some(cut);
                        },
                        Plan::LeftOnAndRaised => {
                            turn.recovered = Some(Recovery::LeftOnAndRaised);
                        },
                        Plan::Busy => {
                            turn.recovered = Some(Recovery::Busy);
                        },
                    }
                }
            },
            Some(RailRequest::ResetModule(_)) | None => {},
        }
        let ghost third = self@;
        proof {
            assert(third == second.recovering(now, request, waiting).0);
        }
        turn.event = self.sequencer.tick(now);
        let cuts = self.sequencer.recent_cuts(now);
        if self.planned.is_none() {
            if let Some(on_part) = self.on_part {
                if on_part.due(cuts, now) {
                    turn.keep = Some(Keep::Changed(cuts));
                }
            }
        }
        turn
    }

    /// How the lines should be driven now.
    pub fn lines(&self) -> (r: Lines)
        ensures
            r == self@.sequencer.lines(),
    {
        self.sequencer.lines()
    }
}

} // verus!
