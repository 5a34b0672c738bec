//! Why the generator is running, written before the output moves.
//!
//! Power-on, watchdog and brown-out are three different situations, and a
//! generator that was running through one of them is a fourth. The run reason
//! tells the boot which, and none of that is possible unless the reason was on
//! the part before the contact closed: it is written on every start and every
//! stop, before the output moves.
//!
//! That order is a type here. The output moves on a [`Declared`], and a
//! `Declared` comes out of [`KeptReason::declare`] only once the part has the
//! reason.

use vstd::prelude::*;

use crate::body::{body_of, padded, Body, Malformed, Refused};
use crate::bytes::{
    from_le, le, lemma_from_le_bound, lemma_le_len, lemma_le_round_trip, lemma_spans, push_le, read_le,
};
use crate::tick::UnixMillis;

verus! {

broadcast use lemma_le_len;

/// The bytes the reason takes in its record.
pub const RUN_REASON_BYTES: usize = 16;

/// The behaviour that asked for the generator.
#[derive(Debug, Clone, Copy, PartialEq, Eq, Structural)]
pub enum Behaviour {
    /// The generator behaviour: bank voltage or state of charge.
    Generator,
    /// Frost protection.
    Frost,
    /// The schedule.
    Schedule,
    /// Load shedding.
    LoadShed,
}

impl Behaviour {
    /// The byte a behaviour is kept as.
    pub open spec fn spec_code(self) -> u8 {
        match self {
            Behaviour::Generator => 1,
            Behaviour::Frost => 2,
            Behaviour::Schedule => 3,
            Behaviour::LoadShed => 4,
        }
    }

    /// The byte a behaviour is kept as.
    pub fn code(self) -> (r: u8)
        ensures
            r == self.spec_code(),
    {
        match self {
            Behaviour::Generator => 1,
            Behaviour::Frost => 2,
            Behaviour::Schedule => 3,
            Behaviour::LoadShed => 4,
        }
    }

    /// The behaviour a byte stands for, in the mathematical sense.
    pub open spec fn spec_of(code: u8) -> Option<Self> {
        if code == 1 {
            Some(Behaviour::Generator)
        } else if code == 2 {
            Some(Behaviour::Frost)
        } else if code == 3 {
            Some(Behaviour::Schedule)
        } else if code == 4 {
            Some(Behaviour::LoadShed)
        } else {
            None
        }
    }

    /// The behaviour a byte stands for.
    pub fn of(code: u8) -> (r: Option<Self>)
        ensures
            r == Self::spec_of(code),
    {
        match code {
            1 => Some(Behaviour::Generator),
            2 => Some(Behaviour::Frost),
            3 => Some(Behaviour::Schedule),
            4 => Some(Behaviour::LoadShed),
            _ => None,
        }
    }
}

/// Whose decision the start was.
#[derive(Debug, Clone, Copy, PartialEq, Eq, Structural)]
pub enum StartKind {
    /// A person, at the selector or over a command.
    Manual,
    /// A behaviour whose condition held.
    Automatic(Behaviour),
}

impl StartKind {
    /// The two bytes a start is kept as.
    pub open spec fn codes(self) -> Seq<u8> {
        match self {
            StartKind::Manual => seq![1u8, 0u8],
            StartKind::Automatic(behaviour) => seq![2u8, behaviour.spec_code()],
        }
    }
}

/// A run in progress.
#[derive(Debug, Clone, Copy, PartialEq, Eq, Structural)]
pub struct Running {
    /// Whose decision it was.
    pub kind: StartKind,
    /// When it started on the wall clock, if a clock was set.
    pub started: Option<UnixMillis>,
}

/// What the generator is doing, as the part holds it.
#[derive(Debug, Clone, Copy, PartialEq, Eq, Structural)]
pub enum RunReason {
    /// The contact is open, on purpose.
    Stopped,
    /// The contact is closed, and this is why.
    Running(Running),
}

/// What a reason says: whose decision a run was and when it started, zero for
/// no clock; nothing when the contact is open.
pub struct RunModel {
    /// Whose decision it was.
    pub kind: StartKind,
    /// When it started, zero for no clock.
    pub started: u64,
}

impl View for RunReason {
    type V = Option<RunModel>;

    open spec fn view(&self) -> Option<RunModel> {
        match self {
            RunReason::Stopped => None,
            RunReason::Running(running) => Some(
                RunModel {
                    kind: running.kind,
                    started: match running.started {
                        Some(at) => at@,
                        None => 0,
                    },
                },
            ),
        }
    }
}

impl Body<16> for RunReason {
    open spec fn image(v: Option<RunModel>) -> Seq<u8> {
        match v {
            None => padded(Seq::empty(), 16),
            Some(run) => seq![1u8] + run.kind.codes() + padded(Seq::empty(), 5) + le(
                run.started as nat,
                8,
            ),
        }
    }

    open spec fn reading(bytes: Seq<u8>) -> Result<Option<RunModel>, Malformed> {
        let started = from_le(bytes.subrange(8, 16)) as u64;
        if bytes[0] == 0 {
            Ok(None)
        } else if bytes[0] != 1 {
            Err(Malformed { at: 0 })
        } else if bytes[1] == 1 {
            if bytes[2] == 0 {
                Ok(Some(RunModel { kind: StartKind::Manual, started }))
            } else {
                Err(Malformed { at: 2 })
            }
        } else if bytes[1] == 2 {
            match Behaviour::spec_of(bytes[2]) {
                Some(behaviour) => Ok(
                    Some(RunModel { kind: StartKind::Automatic(behaviour), started }),
                ),
                None => Err(Malformed { at: 2 }),
            }
        } else {
            Err(Malformed { at: 1 })
        }
    }

    fn encode(&self) -> (r: [u8; 16]) {
        let mut parts: Vec<u8> = Vec::new();
        if let RunReason::Running(running) = self {
            parts.push(1);
            match running.kind {
                StartKind::Manual => {
                    parts.push(1);
                    parts.push(0);
                },
                StartKind::Automatic(behaviour) => {
                    parts.push(2);
                    parts.push(behaviour.code());
                },
            }
            parts.push(0);
            parts.push(0);
            parts.push(0);
            parts.push(0);
            parts.push(0);
            let started: u64 = match running.started {
                Some(at) => at.as_millis(),
                None => 0,
            };
            push_le(&mut parts, started, 8);
            proof {
                assert(padded(parts@, 16) =~= Self::image(self@));
            }
        }
        body_of::<16>(parts.as_slice())
    }

    fn decode(bytes: &[u8; 16]) -> (r: Result<Self, Malformed>) {
        let whole = bytes.as_slice();
        let state: u8 = whole[0];
        if state == 0 {
            return Ok(RunReason::Stopped);
        }
        if state != 1 {
            return Err(Malformed { at: 0 });
        }
        let kind: u8 = whole[1];
        let behaviour: u8 = whole[2];
        let kind = if kind == 1 {
            if behaviour != 0 {
                return Err(Malformed { at: 2 });
            }
            StartKind::Manual
        } else if kind == 2 {
            match Behaviour::of(behaviour) {
                Some(behaviour) => StartKind::Automatic(behaviour),
                None => {
                    return Err(Malformed { at: 2 });
                },
            }
        } else {
            return Err(Malformed { at: 1 });
        };
        let at = &whole[8..16];
        proof {
            assert(at@ =~= bytes@.subrange(8, 16));
        }
        let started = UnixMillis::new(read_le(at));
        Ok(RunReason::Running(Running { kind, started }))
    }
}

/// A reason written down reads back as it was.
pub proof fn law_a_reason_reads_back(reason: Option<RunModel>)
    ensures
        <RunReason as Body<16>>::reading(<RunReason as Body<16>>::image(reason)) == Ok::<
            Option<RunModel>,
            Malformed,
        >(reason),
{
    match reason {
        None => {},
        Some(run) => {
            let bytes = <RunReason as Body<16>>::image(reason);
            assert(bytes.subrange(8, 16) =~= le(run.started as nat, 8));
            lemma_spans();
            lemma_le_round_trip(run.started as nat, 8);
        },
    }
}

/// A reason the part holds, which is the only thing the output moves on.
/// There is no public constructor.
#[derive(Debug, Clone, Copy, PartialEq, Eq, Structural)]
#[must_use]
pub struct Declared {
    reason: RunReason,
}

impl View for Declared {
    type V = RunReason;

    closed spec fn view(&self) -> RunReason {
        self.reason
    }
}

impl Declared {
    /// The reason the part holds, and so the state the output may take.
    pub fn reason(&self) -> (r: RunReason)
        ensures
            r == self@,
    {
        self.reason
    }
}

/// The reason as the part is known to hold it.
#[derive(Debug, Clone, Copy, PartialEq, Eq, Structural)]
pub struct KeptReason {
    held: Option<RunReason>,
}

impl View for KeptReason {
    type V = Option<RunReason>;

    closed spec fn view(&self) -> Option<RunReason> {
        self.held
    }
}

impl KeptReason {
    /// The reason as the part was read.
    pub fn read(held: Option<RunReason>) -> (r: Self)
        ensures
            r@ == held,
    {
        KeptReason { held }
    }

    /// The reason the part is known to hold.
    pub fn present(&self) -> (r: Option<&RunReason>)
        ensures
            r is Some <==> self@ is Some,
            r matches Some(reason) ==> self@ == Some(*reason),
    {
        self.held.as_ref()
    }

    /// `reason` was written, with this outcome: once the part has it, hand out
    /// the permission to move the output to it. A write that is refused moves
    /// nothing.
    pub fn declare(&mut self, reason: RunReason, written: Result<(), Refused>) -> (r: Result<
        Declared,
        Refused,
    >)
        ensures
            match written {
                Ok(_) => r is Ok && r->Ok_0@ == reason && final(self)@ == Some(reason),
                Err(why) => r == Err::<Declared, Refused>(why) && final(self)@ == old(self)@,
            },
    {
        match written {
            Ok(_) => {
                self.held = Some(reason);
                Ok(Declared { reason })
            },
            Err(why) => Err(why),
        }
    }
}

/// What the part holds means something exactly when every byte of it does: no
/// run for a first byte of zero; else a person's start with no behaviour, or
/// one of four behaviours; and what does not read is refused at the byte where
/// the meaning runs out.
pub proof fn law_a_reason_reads_byte_by_byte(bytes: Seq<u8>)
    requires
        bytes.len() == 16,
    ensures
        ({
            let read = <RunReason as Body<16>>::reading(bytes);
            &&& read == Ok::<Option<RunModel>, Malformed>(None) <==> bytes[0] == 0
            &&& read == Err::<Option<RunModel>, Malformed>(Malformed { at: 0 }) <==> bytes[0] > 1
            &&& read == Err::<Option<RunModel>, Malformed>(Malformed { at: 1 }) <==> bytes[0] == 1
                && bytes[1] != 1 && bytes[1] != 2
            &&& read == Err::<Option<RunModel>, Malformed>(Malformed { at: 2 }) <==> bytes[0] == 1
                && ((bytes[1] == 1 && bytes[2] != 0) || (bytes[1] == 2 && !(1 <= bytes[2] <= 4)))
            &&& read matches Ok(Some(run)) ==> {
                &&& run.started == from_le(bytes.subrange(8, 16))
                &&& run.kind == StartKind::Manual <==> bytes[1] == 1
                &&& run.kind matches StartKind::Automatic(behaviour) ==> behaviour.spec_code()
                    == bytes[2]
            }
        }),
{
    lemma_from_le_bound(bytes.subrange(8, 16));
    lemma_spans();
}

} // verus!
