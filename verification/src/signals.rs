//! The reading store: every signal carries its quality beside its value.
//!
//! A driver writes an [`Observation`], which cannot be built with a value and
//! no provenance or a provenance and no value, and cannot say *stale*:
//! staleness is the store's to decide, on the tick.
//!
//! A slot goes stale two ways. Nothing is written for longer than the maximum
//! age; or the instrument keeps answering the same number for longer than the
//! maximum unchanged run, when the channel has one. The run restarts on a
//! changed value, a changed quality, or a channel coming back from silence.

use crate::reading::{Id, Provenance, QualityError, Sample, SignalQuality, Validity};
use crate::tick::{Millis, Tick};
use vstd::prelude::*;

verus! {

broadcast use {Id::same_number_same_id, SignalQuality::is_its_halves, SignalQuality::halves};

/// The number of signals the controller's store holds.
pub const SIGNAL_SLOTS: usize = 64;

/// The store the controller runs, at its named capacity.
pub type SiteSignals = Signals<SIGNAL_SLOTS>;

/// What a driver hands the store: a value with the provenance its source can
/// justify, or no value and the reason there is none.
#[derive(Debug, Clone, Copy, PartialEq, Eq, Structural)]
pub struct Observation {
    q: SignalQuality,
    value: Option<i32>,
}

impl Observation {
    #[verifier::type_invariant]
    spec fn honest(self) -> bool {
        &&& self.q.validity().spec_has_value() <==> self.value is Some
        &&& self.q.validity().spec_has_value() <==> !(self.q.provenance() is Nowhere)
        &&& !(self.q.validity() is Stale)
    }

    /// The quality.
    pub closed spec fn spec_quality(self) -> SignalQuality {
        self.q
    }

    /// The value.
    pub closed spec fn spec_reading(self) -> Option<i32> {
        self.value
    }

    /// A current value from `provenance`, refused for none: a value with no
    /// source is a claim about a number nobody has.
    pub fn value(value: i32, provenance: Provenance) -> (r: Result<Self, QualityError>)
        ensures
            match r {
                Ok(seen) => {
                    &&& !(provenance is Nowhere)
                    &&& seen.spec_quality() == SignalQuality::spec_of(Validity::Current, provenance)
                    &&& seen.spec_reading() == Some(value)
                },
                Err(why) => provenance is Nowhere && why == QualityError::CarryingWithoutProvenance,
            },
    {
        let q = SignalQuality::carrying(Validity::Current, provenance)?;
        Ok(Observation { q, value: Some(value) })
    }

    /// No value, and why. Refused for a validity that carries one: a source
    /// that has a number writes it, and staleness is the store's to decide.
    pub fn missing(validity: Validity) -> (r: Result<Self, QualityError>)
        ensures
            match r {
                Ok(seen) => {
                    &&& !validity.spec_has_value()
                    &&& seen.spec_quality() == SignalQuality::spec_of(validity, Provenance::Nowhere)
                    &&& seen.spec_reading() is None
                },
                Err(why) => validity.spec_has_value() && why == QualityError::ValueOmitted(
                    validity,
                ),
            },
    {
        let q = SignalQuality::absent(validity)?;
        Ok(Observation { q, value: None })
    }

    /// The quality.
    pub fn quality(self) -> (r: SignalQuality)
        ensures
            r == self.spec_quality(),
    {
        self.q
    }

    /// The value, present exactly when the quality carries one.
    pub fn reading(self) -> (r: Option<i32>)
        ensures
            r == self.spec_reading(),
            r is Some <==> self.spec_quality().validity().spec_has_value(),
    {
        proof {
            use_type_invariant(&self);
        }
        self.value
    }
}

/// How long a channel's reading stays current.
#[derive(Debug, Clone, Copy, PartialEq, Eq, Structural)]
pub struct Limits {
    max_age: Millis,
    max_unchanged: Option<Millis>,
}

impl Limits {
    #[verifier::type_invariant]
    spec fn not_zero(self) -> bool {
        &&& self.max_age.0 != 0
        &&& self.max_unchanged matches Some(run) ==> run.0 != 0
    }

    /// The longest a reading stays current without a write.
    pub closed spec fn spec_max_age(self) -> Millis {
        self.max_age
    }

    /// The longest a reading stays current without changing.
    pub closed spec fn spec_max_unchanged(self) -> Option<Millis> {
        self.max_unchanged
    }

    /// A channel whose value goes stale `max_age` after its last write, and,
    /// when given, `max_unchanged` after it last changed. `None` for a zero
    /// duration, which is a mistake and not a policy.
    pub fn new(max_age: Millis, max_unchanged: Option<Millis>) -> (r: Option<Self>)
        ensures
            r is None <==> max_age.0 == 0 || max_unchanged == Some(Millis(0)),
            r matches Some(limits) ==> limits.spec_max_age() == max_age
                && limits.spec_max_unchanged() == max_unchanged,
    {
        if max_age.0 == 0 {
            return None;
        }
        if let Some(run) = max_unchanged {
            if run.0 == 0 {
                return None;
            }
        }
        Some(Limits { max_age, max_unchanged })
    }

    /// The longest a reading stays current without a write.
    pub fn max_age(self) -> (r: Millis)
        ensures
            r == self.spec_max_age(),
            r.0 != 0,
    {
        proof {
            use_type_invariant(&self);
        }
        self.max_age
    }

    /// The longest a reading stays current without changing, if the channel
    /// has such a limit.
    pub fn max_unchanged(self) -> (r: Option<Millis>)
        ensures
            r == self.spec_max_unchanged(),
    {
        self.max_unchanged
    }
}

/// Why the store would not do what it was asked.
#[derive(Debug, Clone, Copy, PartialEq, Eq, Structural)]
pub enum SignalError {
    /// Every slot is taken. No existing signal is evicted.
    Full,
    /// The signal is registered already.
    Duplicate(Id),
    /// No slot holds this signal.
    Unknown(Id),
    /// The tick is earlier than the slot's last write.
    TickBehind(Id),
    /// The sample the slot would make was refused.
    Quality(QualityError),
}

/// What a slot remembers of its last write.
#[derive(Debug, Clone, Copy, PartialEq, Eq, Structural)]
pub struct LastWrite {
    /// What the source said.
    pub seen: Observation,
    /// When.
    pub written: Tick,
    /// When the current unchanged run began.
    pub run_from: Tick,
}

/// One signal's slot.
#[derive(Debug, Clone, Copy, PartialEq, Eq, Structural)]
pub struct Slot {
    /// The signal.
    pub sig: Id,
    /// How long its reading stays current.
    pub limits: Limits,
    /// Its last write, if there was one.
    pub held: Option<LastWrite>,
}

/// A duration in whole seconds, saturating rather than wrapping to a young
/// reading.
pub open spec fn spec_seconds(age: Millis) -> u32 {
    if age.0 / 1000 <= u32::MAX {
        (age.0 / 1000) as u32
    } else {
        u32::MAX
    }
}

/// A duration in whole seconds, saturating rather than wrapping to a young
/// reading.
pub fn seconds(age: Millis) -> (r: u32)
    ensures
        r == spec_seconds(age),
{
    let secs: u64 = age.as_secs();
    if secs <= u32::MAX as u64 {
        secs as u32
    } else {
        u32::MAX
    }
}

impl Slot {
    /// How old the slot's value is at `now`, when it is stale: as old as its
    /// last write in silence, as old as its run when it hangs.
    pub open spec fn staleness(self, now: Tick) -> Option<Millis> {
        let held = self.held->0;
        let since_write = (now.0 - held.written.0) as u64;
        let since_change = (now.0 - held.run_from.0) as u64;
        if since_write > self.limits.spec_max_age().0 {
            Some(Millis(since_write))
        } else if self.limits.spec_max_unchanged() matches Some(run) && since_change > run.0 {
            Some(Millis(since_change))
        } else {
            None
        }
    }

    /// The sample the slot publishes at `now`: initialising before its first
    /// write; no value and why; or the value, stale with its age once either
    /// limit has passed.
    pub open spec fn spec_sample(self, now: Tick) -> Result<Sample, SignalError> {
        match self.held {
            None => Ok(
                Sample {
                    sig: self.sig,
                    value: None,
                    q: SignalQuality::spec_of(Validity::Initialising, Provenance::Nowhere),
                    age: None,
                },
            ),
            Some(held) => if held.seen.spec_reading() is None {
                Ok(
                    Sample {
                        sig: self.sig,
                        value: None,
                        q: held.seen.spec_quality(),
                        age: None,
                    },
                )
            } else if now.0 < held.written.0 || now.0 < held.run_from.0 {
                Err(SignalError::TickBehind(self.sig))
            } else {
                match self.staleness(now) {
                    None => Ok(
                        Sample {
                            sig: self.sig,
                            value: held.seen.spec_reading(),
                            q: held.seen.spec_quality(),
                            age: None,
                        },
                    ),
                    Some(age) => Ok(
                        Sample {
                            sig: self.sig,
                            value: held.seen.spec_reading(),
                            q: SignalQuality::spec_of(
                                Validity::Stale,
                                held.seen.spec_quality().provenance(),
                            ),
                            age: Some(spec_seconds(age)),
                        },
                    ),
                }
            },
        }
    }

    /// The slot after its source said `seen` at `now`: a new run when the
    /// value or the quality differs, or when the last write is older than the
    /// maximum age; else the run goes on.
    pub open spec fn spec_written(self, now: Tick, seen: Observation) -> Slot {
        Slot {
            held: Some(
                LastWrite {
                    seen,
                    written: now,
                    run_from: match self.held {
                        Some(held) => if now.0 - held.written.0 > self.limits.spec_max_age().0
                            || held.seen != seen {
                            now
                        } else {
                            held.run_from
                        },
                        None => now,
                    },
                },
            ),
            ..self
        }
    }

    /// The sample this slot publishes at `now`.
    pub fn sample(&self, now: Tick) -> (r: Result<Sample, SignalError>)
        ensures
            r == self.spec_sample(now),
            r matches Ok(sample) ==> Sample::spec_refused(
                sample.q,
                sample.value,
                sample.age,
            ) is None,
    {
        let held = match self.held {
            Some(held) => held,
            None => {
                // Registered and never written.
                let q = match SignalQuality::absent(Validity::Initialising) {
                    Ok(q) => q,
                    Err(why) => return Err(SignalError::Quality(why)),
                };
                return match Sample::new(self.sig, q, None, None) {
                    Ok(sample) => Ok(sample),
                    Err(why) => Err(SignalError::Quality(why)),
                };
            },
        };
        let seen = held.seen;
        proof {
            use_type_invariant(&seen);
        }
        let value: i32 = match seen.reading() {
            Some(value) => value,
            None => {
                return match Sample::new(self.sig, seen.q, None, None) {
                    Ok(sample) => Ok(sample),
                    Err(why) => Err(SignalError::Quality(why)),
                };
            },
        };
        let since_write = match now.since(held.written) {
            Some(since) => since,
            None => return Err(SignalError::TickBehind(self.sig)),
        };
        let since_change = match now.since(held.run_from) {
            Some(since) => since,
            None => return Err(SignalError::TickBehind(self.sig)),
        };
        let age = if since_write.0 > self.limits.max_age.0 {
            // Silence: the value is as old as its last write.
            Some(since_write)
        } else {
            match self.limits.max_unchanged {
                // A hung instrument: the value is as old as its run.
                Some(run) => if since_change.0 > run.0 {
                    Some(since_change)
                } else {
                    None
                },
                None => None,
            }
        };
        let made = match age {
            None => Sample::new(self.sig, seen.q, Some(value), None),
            Some(age) => match SignalQuality::carrying(
                Validity::Stale,
                seen.q.provenance_of(),
            ) {
                Ok(q) => Sample::new(self.sig, q, Some(value), Some(seconds(age))),
                Err(why) => Err(why),
            },
        };
        match made {
            Ok(sample) => Ok(sample),
            Err(why) => Err(SignalError::Quality(why)),
        }
    }
}

/// Whether slots stand in strictly ascending signal order.
pub open spec fn ascending(slots: Seq<Slot>) -> bool {
    forall|i: int, j: int| 0 <= i < j < slots.len() ==> slots[i].sig@ < slots[j].sig@
}

/// Whether no slot's unchanged run begins after its last write.
pub open spec fn runs_begun(slots: Seq<Slot>) -> bool {
    forall|i: int|
        0 <= i < slots.len() ==> ((#[trigger] slots[i]).held matches Some(held)
            ==> held.run_from.0 <= held.written.0)
}

/// Whether some slot holds `sig`.
pub open spec fn registered(slots: Seq<Slot>, sig: Id) -> bool {
    exists|i: int| 0 <= i < slots.len() && (#[trigger] slots[i]).sig == sig
}

/// Where `sig` is.
pub open spec fn place(slots: Seq<Slot>, sig: Id) -> int {
    choose|i: int| 0 <= i < slots.len() && (#[trigger] slots[i]).sig == sig
}

/// The store of signals, room for `N`, kept in ascending signal order so a page
/// of readings is already in the order it goes out in.
#[derive(Debug, Clone)]
pub struct Signals<const N: usize> {
    slots: Vec<Slot>,
}

impl<const N: usize> View for Signals<N> {
    type V = Seq<Slot>;

    closed spec fn view(&self) -> Seq<Slot> {
        self.slots@
    }
}

impl<const N: usize> Default for Signals<N> {
    fn default() -> (r: Self)
        ensures
            r@ == Seq::<Slot>::empty(),
            r.wf(),
    {
        Self::new()
    }
}

impl<const N: usize> Signals<N> {
    /// No more slots than there is room for, in ascending signal order, and no
    /// unchanged run that begins after its slot's last write.
    pub open spec fn wf(&self) -> bool {
        &&& self@.len() <= N
        &&& ascending(self@)
        &&& runs_begun(self@)
    }

    /// An empty store.
    pub fn new() -> (r: Self)
        ensures
            r@ == Seq::<Slot>::empty(),
            r.wf(),
    {
        Signals { slots: Vec::new() }
    }

    /// How many signals are registered.
    pub fn len(&self) -> (r: usize)
        ensures
            r == self@.len(),
    {
        self.slots.len()
    }

    /// Whether no signal is registered.
    pub fn is_empty(&self) -> (r: bool)
        ensures
            r == (self@.len() == 0),
    {
        self.slots.len() == 0
    }

    /// Where `sig` is, or where it would go.
    fn find(&self, sig: Id) -> (r: Result<usize, usize>)
        requires
            self.wf(),
        ensures
            match r {
                Ok(at) => at < self@.len() && self@[at as int].sig == sig,
                Err(at) => {
                    &&& at <= self@.len()
                    &&& forall|i: int| 0 <= i < at ==> (#[trigger] self@[i]).sig@ < sig@
                    &&& forall|i: int| at <= i < self@.len() ==> (#[trigger] self@[i]).sig@ > sig@
                },
            },
    {
        let mut lo: usize = 0;
        let mut hi: usize = self.slots.len();
        while lo < hi
            invariant
                self.wf(),
                lo <= hi <= self@.len(),
                forall|i: int| 0 <= i < lo ==> (#[trigger] self@[i]).sig@ < sig@,
                forall|i: int| hi <= i < self@.len() ==> (#[trigger] self@[i]).sig@ > sig@,
            decreases hi - lo,
        {
            let mid: usize = lo + (hi - lo) / 2;
            let here: u16 = self.slots[mid].sig.get();
            if here == sig.get() {
                return Ok(mid);
            }
            if here < sig.get() {
                lo = mid + 1;
            } else {
                hi = mid;
            }
        }
        Err(lo)
    }

    /// Give `sig` a slot with its `limits`. It reads *initialising* until the
    /// first write.
    ///
    /// Refuses a signal already registered, and refuses any signal once every
    /// slot is taken; nothing is evicted to make room.
    pub fn register(&mut self, sig: Id, limits: Limits) -> (r: Result<(), SignalError>)
        requires
            old(self).wf(),
        ensures
            final(self).wf(),
            if registered(old(self)@, sig) {
                &&& r == Err::<(), SignalError>(SignalError::Duplicate(sig))
                &&& final(self)@ == old(self)@
            } else if old(self)@.len() >= N {
                &&& r == Err::<(), SignalError>(SignalError::Full)
                &&& final(self)@ == old(self)@
            } else {
                &&& r == Ok::<(), SignalError>(())
                &&& exists|at: int|
                    0 <= at <= old(self)@.len() && final(self)@ == #[trigger] old(
                        self,
                    )@.insert(at, Slot { sig, limits, held: None })
            },
    {
        let at: usize = match self.find(sig) {
            Ok(at) => {
                proof {
                    assert(self@[at as int].sig == sig);
                }
                return Err(SignalError::Duplicate(sig));
            },
            Err(at) => at,
        };
        proof {
            assert(!registered(self@, sig));
        }
        if self.slots.len() >= N {
            return Err(SignalError::Full);
        }
        let slot = Slot { sig, limits, held: None };
        self.slots.insert(at, slot);
        proof {
            assert(self@ =~= old(self)@.insert(at as int, slot));
        }
        Ok(())
    }

    /// Record what `sig`'s source said at `now`.
    ///
    /// The unchanged run restarts when the value or the quality differs from
    /// the last write, and when the last write is older than the channel's
    /// maximum age.
    pub fn write(&mut self, sig: Id, now: Tick, seen: Observation) -> (r: Result<(), SignalError>)
        requires
            old(self).wf(),
        ensures
            final(self).wf(),
            if !registered(old(self)@, sig) {
                &&& r == Err::<(), SignalError>(SignalError::Unknown(sig))
                &&& final(self)@ == old(self)@
            } else {
                let at = place(old(self)@, sig);
                let slot = old(self)@[at];
                if slot.held matches Some(held) && now.0 < held.written.0 {
                    &&& r == Err::<(), SignalError>(SignalError::TickBehind(sig))
                    &&& final(self)@ == old(self)@
                } else {
                    &&& r == Ok::<(), SignalError>(())
                    &&& final(self)@ == old(self)@.update(at, slot.spec_written(now, seen))
                }
            },
    {
        let at: usize = match self.find(sig) {
            Ok(at) => at,
            Err(_) => {
                proof {
                    assert(!registered(self@, sig));
                }
                return Err(SignalError::Unknown(sig));
            },
        };
        proof {
            assert(self@[at as int].sig == sig);
            assert(place(self@, sig) == at);
        }
        let slot = self.slots[at];
        let run_from = match slot.held {
            None => now,
            Some(held) => {
                let since = match now.since(held.written) {
                    Some(since) => since,
                    None => return Err(SignalError::TickBehind(sig)),
                };
                let silent = since.0 > slot.limits.max_age.0;
                if silent || held.seen != seen {
                    now
                } else {
                    held.run_from
                }
            },
        };
        let held = Some(LastWrite { seen, written: now, run_from });
        self.slots[at] = Slot { sig: slot.sig, limits: slot.limits, held };
        proof {
            assert(self@ =~= old(self)@.update(
                at as int,
                old(self)@[at as int].spec_written(now, seen),
            ));
        }
        Ok(())
    }

    /// What `sig` publishes at `now`, in the mathematical sense.
    pub open spec fn spec_sample(&self, sig: Id, now: Tick) -> Result<Sample, SignalError> {
        if registered(self@, sig) {
            self@[place(self@, sig)].spec_sample(now)
        } else {
            Err(SignalError::Unknown(sig))
        }
    }

    /// What `sig` publishes at `now`: its value and quality, *stale* with its
    /// age once either limit has passed, *initialising* before its first
    /// write.
    pub fn sample(&self, sig: Id, now: Tick) -> (r: Result<Sample, SignalError>)
        requires
            self.wf(),
        ensures
            r == self.spec_sample(sig, now),
            r matches Ok(sample) ==> Sample::spec_refused(
                sample.q,
                sample.value,
                sample.age,
            ) is None,
    {
        match self.find(sig) {
            Ok(at) => {
                proof {
                    assert(self@[at as int].sig == sig);
                    assert(place(self@, sig) == at);
                }
                self.slots[at].sample(now)
            },
            Err(_) => {
                proof {
                    assert(!registered(self@, sig));
                }
                Err(SignalError::Unknown(sig))
            },
        }
    }

    /// `sig`'s value for a behaviour that acts only on a current reading from
    /// one of `accepts`.
    ///
    /// Refuses no value, a stale value, and a value from a provenance outside
    /// the set, each as itself.
    pub fn current(&self, sig: Id, now: Tick, accepts: ProvenanceSet) -> (r: Result<
        Eligible,
        Ineligible,
    >)
        requires
            self.wf(),
        ensures
            r == (match self.spec_sample(sig, now) {
                Err(why) => Err::<Eligible, Ineligible>(Ineligible::Store(why)),
                Ok(sample) => match sample.value {
                    None => Err(Ineligible::NoValue(sample.q.validity())),
                    Some(value) => if sample.q.validity() is Stale {
                        Err(Ineligible::Stale(sample.q.provenance()))
                    } else if !(sample.q.validity() is Current) {
                        Err(Ineligible::NoValue(sample.q.validity()))
                    } else if !accepts.has(sample.q.provenance()) {
                        Err(Ineligible::Provenance(sample.q.provenance()))
                    } else {
                        Ok(Eligible { value, provenance: sample.q.provenance() })
                    },
                },
            }),
    {
        let sample = match self.sample(sig, now) {
            Ok(sample) => sample,
            Err(why) => return Err(Ineligible::Store(why)),
        };
        let validity = sample.q.validity_of();
        let value: i32 = match sample.value() {
            Some(value) => value,
            None => return Err(Ineligible::NoValue(validity)),
        };
        let provenance = sample.q.provenance_of();
        match validity {
            Validity::Current => {},
            Validity::Stale => return Err(Ineligible::Stale(provenance)),
            _ => return Err(Ineligible::NoValue(validity)),
        }
        if !accepts.contains(provenance) {
            return Err(Ineligible::Provenance(provenance));
        }
        Ok(Eligible { value, provenance })
    }

    /// Every signal's sample at `now`, in ascending signal order.
    pub fn samples(&self, now: Tick) -> (r: Vec<Result<Sample, SignalError>>)
        requires
            self.wf(),
        ensures
            r@ == self@.map_values(|slot: Slot| slot.spec_sample(now)),
    {
        let mut out: Vec<Result<Sample, SignalError>> = Vec::new();
        let mut i: usize = 0;
        while i < self.slots.len()
            invariant
                i <= self@.len(),
                out@.len() == i,
                forall|j: int| 0 <= j < i ==> out@[j] == (#[trigger] self@[j]).spec_sample(now),
            decreases self@.len() - i,
        {
            out.push(self.slots[i].sample(now));
            i = i + 1;
        }
        proof {
            assert(out@ =~= self@.map_values(|slot: Slot| slot.spec_sample(now)));
        }
        out
    }
}

/// A value a behaviour may act on, with the provenance it was accepted at.
///
/// Only [`Signals::current`] makes one.
#[derive(Debug, Clone, Copy, PartialEq, Eq, Structural)]
pub struct Eligible {
    /// The scaled integer.
    pub value: i32,
    /// Where it came from.
    pub provenance: Provenance,
}

impl Eligible {
    /// The scaled integer, in the metric kind's unit and scale.
    pub fn value(self) -> (r: i32)
        ensures
            r == self.value,
    {
        self.value
    }

    /// Where it came from, one of the provenances the caller accepted.
    pub fn provenance(self) -> (r: Provenance)
        ensures
            r == self.provenance,
    {
        self.provenance
    }
}

/// Why a reading is not one a behaviour may act on.
#[derive(Debug, Clone, Copy, PartialEq, Eq, Structural)]
pub enum Ineligible {
    /// There is no value, and this is why.
    NoValue(Validity),
    /// There is a value and it is stale.
    Stale(Provenance),
    /// There is a current value from a provenance the behaviour does not
    /// accept.
    Provenance(Provenance),
    /// The store refused the read.
    Store(SignalError),
}

/// A set of provenances a behaviour will act on.
///
/// A set and never a threshold: provenance numbers are an allocation order.
/// [`Provenance::Nowhere`] is never a member.
#[derive(Debug, Clone, Copy, PartialEq, Eq, Structural)]
pub struct ProvenanceSet(u8);

/// The bit a provenance has in a set, none for [`Provenance::Nowhere`].
spec fn bit_of(provenance: Provenance) -> u8 {
    match provenance {
        Provenance::Nowhere => 0,
        Provenance::Measured => 2,
        Provenance::Counted => 4,
        Provenance::Derived => 8,
        Provenance::Estimated => 16,
        Provenance::Reported => 32,
        Provenance::Commanded => 64,
    }
}

/// Adding a provenance's bit adds that provenance and no other.
proof fn lemma_add_bit(bits: u8, member: Provenance, asked: Provenance)
    ensures
        ((bits | bit_of(member)) & bit_of(asked) != 0) <==> (bits & bit_of(asked) != 0 || (asked
            == member && !(asked is Nowhere))),
{
    let b = bit_of(member);
    let c = bit_of(asked);
    assert(((bits | b) & c != 0) <==> (bits & c != 0 || b & c != 0)) by (bit_vector);
    assert(forall|x: u8| #[trigger] (x & 0u8) == 0u8) by (bit_vector);
    assert(forall|x: u8| #[trigger] (0u8 & x) == 0u8) by (bit_vector);
    assert(2u8 & 2u8 == 2u8 && 4u8 & 4u8 == 4u8 && 8u8 & 8u8 == 8u8 && 16u8 & 16u8 == 16u8 && 32u8
        & 32u8 == 32u8 && 64u8 & 64u8 == 64u8) by (bit_vector);
    assert(2u8 & 4u8 == 0 && 2u8 & 8u8 == 0 && 2u8 & 16u8 == 0 && 2u8 & 32u8 == 0 && 2u8 & 64u8
        == 0 && 4u8 & 2u8 == 0 && 4u8 & 8u8 == 0 && 4u8 & 16u8 == 0 && 4u8 & 32u8 == 0 && 4u8
        & 64u8 == 0 && 8u8 & 2u8 == 0 && 8u8 & 4u8 == 0 && 8u8 & 16u8 == 0 && 8u8 & 32u8 == 0
        && 8u8 & 64u8 == 0) by (bit_vector);
    assert(16u8 & 2u8 == 0 && 16u8 & 4u8 == 0 && 16u8 & 8u8 == 0 && 16u8 & 32u8 == 0 && 16u8
        & 64u8 == 0 && 32u8 & 2u8 == 0 && 32u8 & 4u8 == 0 && 32u8 & 8u8 == 0 && 32u8 & 16u8 == 0
        && 32u8 & 64u8 == 0 && 64u8 & 2u8 == 0 && 64u8 & 4u8 == 0 && 64u8 & 8u8 == 0 && 64u8
        & 16u8 == 0 && 64u8 & 32u8 == 0) by (bit_vector);
}

impl ProvenanceSet {
    /// Whether `provenance` is in the set.
    pub closed spec fn has(self, provenance: Provenance) -> bool {
        self.0 & bit_of(provenance) != 0
    }

    /// The set of nothing.
    pub fn empty() -> (r: Self)
        ensures
            forall|p: Provenance| !r.has(p),
    {
        proof {
            assert(forall|x: u8| #[trigger] (0u8 & x) == 0u8) by (bit_vector);
        }
        ProvenanceSet(0)
    }

    /// The set of `members`, [`Provenance::Nowhere`] never among them.
    pub fn of(members: &[Provenance]) -> (r: Self)
        ensures
            forall|p: Provenance| r.has(p) <==> !(p is Nowhere) && members@.contains(p),
    {
        let mut bits: u8 = 0;
        let mut i: usize = 0;
        proof {
            assert(forall|x: u8| #[trigger] (0u8 & x) == 0u8) by (bit_vector);
        }
        while i < members.len()
            invariant
                i <= members@.len(),
                forall|p: Provenance|
                    #![trigger bit_of(p)]
                    (bits & bit_of(p) != 0) <==> !(p is Nowhere) && exists|j: int|
                        0 <= j < i && members@[j] == p,
            decreases members@.len() - i,
        {
            let member = members[i];
            let ghost before = bits;
            bits = bits | Self::bit(member);
            proof {
                assert forall|p: Provenance|
                    #![trigger bit_of(p)]
                    (bits & bit_of(p) != 0) <==> !(p is Nowhere) && exists|j: int|
                        0 <= j < i + 1 && members@[j] == p by {
                    lemma_add_bit(before, member, p);
                    if p == member && !(p is Nowhere) {
                        assert(members@[i as int] == p);
                    }
                }
            }
            i = i + 1;
        }
        let set = ProvenanceSet(bits);
        proof {
            assert forall|p: Provenance| set.has(p) <==> !(p is Nowhere) && members@.contains(p) by {
                assert((bits & bit_of(p) != 0) <==> !(p is Nowhere) && exists|j: int|
                    0 <= j < i && members@[j] == p);
            }
        }
        set
    }

    /// Whether `provenance` is in the set.
    pub fn contains(self, provenance: Provenance) -> (r: bool)
        ensures
            r == self.has(provenance),
    {
        self.0 & Self::bit(provenance) != 0
    }

    fn bit(provenance: Provenance) -> (r: u8)
        ensures
            r == bit_of(provenance),
    {
        match provenance {
            Provenance::Nowhere => 0,
            Provenance::Measured => 2,
            Provenance::Counted => 4,
            Provenance::Derived => 8,
            Provenance::Estimated => 16,
            Provenance::Reported => 32,
            Provenance::Commanded => 64,
        }
    }
}

/// The generator's charge-source rule: which state of charge autostart may act
/// on.
#[derive(Debug, Clone, Copy, PartialEq, Eq, Structural)]
pub enum ChargeSource {
    /// Only a state of charge the source counted.
    CountedOnly,
    /// A counted state of charge, or an estimate somebody has accepted as one.
    EstimateAccepted,
}

impl ChargeSource {
    /// The provenances this rule acts on.
    pub fn accepts(self) -> (r: ProvenanceSet)
        ensures
            forall|p: Provenance|
                r.has(p) <==> p is Counted || (self is EstimateAccepted && p is Estimated),
    {
        match self {
            ChargeSource::CountedOnly => {
                let members: [Provenance; 1] = [Provenance::Counted];
                proof {
                    assert(members@ =~= seq![Provenance::Counted]);
                    assert forall|p: Provenance| members@.contains(p) <==> p is Counted by {
                        if p is Counted {
                            assert(members@[0] == p);
                        }
                    }
                }
                ProvenanceSet::of(members.as_slice())
            },
            ChargeSource::EstimateAccepted => {
                let members: [Provenance; 2] = [Provenance::Counted, Provenance::Estimated];
                proof {
                    assert(members@ =~= seq![Provenance::Counted, Provenance::Estimated]);
                    assert forall|p: Provenance|
                        members@.contains(p) <==> p is Counted || p is Estimated by {
                        if p is Counted {
                            assert(members@[0] == p);
                        }
                        if p is Estimated {
                            assert(members@[1] == p);
                        }
                    }
                }
                ProvenanceSet::of(members.as_slice())
            },
        }
    }
}

/// A reading carries a value exactly when its quality says so, whatever was
/// written and however long ago.
pub proof fn law_a_value_exactly_when_the_quality_carries_one(slot: Slot, now: Tick)
    requires
        slot.held matches Some(held) ==> (held.seen.spec_reading() is Some
            <==> held.seen.spec_quality().validity().spec_has_value()),
        slot.held matches Some(held) ==> !(held.seen.spec_quality().validity() is Stale),
    ensures
        slot.spec_sample(now) matches Ok(sample) ==> {
            &&& sample.sig == slot.sig
            &&& sample.value is Some <==> sample.q.validity().spec_has_value()
            &&& sample.age is Some <==> sample.q.validity() is Stale
        },
{
}

/// A value past its maximum age is stale, and one inside both limits is not.
pub proof fn law_stale_exactly_past_a_limit(slot: Slot, now: Tick)
    requires
        slot.held matches Some(held) && held.seen.spec_reading() is Some
            && held.seen.spec_quality().validity() is Current && held.run_from.0 <= held.written.0
            <= now.0,
    ensures
        ({
            let held = slot.held->0;
            let silent = now.0 - held.written.0 > slot.limits.spec_max_age().0;
            let hung = slot.limits.spec_max_unchanged() matches Some(run) && now.0
                - held.run_from.0 > run.0;
            &&& slot.spec_sample(now) is Ok
            &&& slot.spec_sample(now)->Ok_0.value == held.seen.spec_reading()
            &&& slot.spec_sample(now)->Ok_0.q.validity() is Stale <==> silent || hung
            &&& slot.spec_sample(now)->Ok_0.q.provenance()
                == held.seen.spec_quality().provenance()
        }),
{
}

/// What was written is what is read at the same tick, unless the run it
/// continues is past its limit.
pub proof fn law_a_read_gives_back_the_write(slot: Slot, now: Tick, seen: Observation)
    requires
        seen.spec_reading() is Some,
        seen.spec_quality().validity() is Current,
        slot.held matches Some(held) ==> held.run_from.0 <= held.written.0 <= now.0,
    ensures
        ({
            let after = slot.spec_written(now, seen).spec_sample(now);
            &&& after is Ok
            &&& after->Ok_0.value == seen.spec_reading()
            &&& after->Ok_0.q.provenance() == seen.spec_quality().provenance()
            &&& slot.held is None ==> after->Ok_0.q == seen.spec_quality()
        }),
{
}

/// A signal answers at every tick that is not before its last write: the store
/// refuses a sample only for going back.
pub proof fn law_a_sample_answers_from_its_last_write(slots: Seq<Slot>, i: int, now: Tick)
    requires
        runs_begun(slots),
        0 <= i < slots.len(),
        slots[i].held matches Some(held) ==> held.written.0 <= now.0,
    ensures
        slots[i].spec_sample(now) is Ok,
{
}

/// A stale value says how old it is in whole seconds: as old as its last write
/// when nothing was written for too long, else as old as the run that hangs.
pub proof fn law_a_stale_value_says_its_age(slot: Slot, now: Tick)
    requires
        slot.held matches Some(held) && held.seen.spec_reading() is Some
            && held.seen.spec_quality().validity() is Current && held.run_from.0 <= held.written.0
            <= now.0,
        slot.spec_sample(now) matches Ok(sample) && sample.age is Some,
    ensures
        ({
            let held = slot.held->0;
            let age = slot.spec_sample(now)->Ok_0.age->0;
            let old = if now.0 - held.written.0 > slot.limits.spec_max_age().0 {
                now.0 - held.written.0
            } else {
                now.0 - held.run_from.0
            };
            &&& old < 1_000 * 0x1_0000_0000 ==> 1_000 * age <= old < 1_000 * age + 1_000
            &&& old >= 1_000 * 0x1_0000_0000 ==> age == u32::MAX
        }),
{
}

/// A value that hangs goes stale though it is written again and again: the same
/// words inside the maximum age go on with the run. A changed value, a changed
/// quality and a channel back from silence begin a new one, and what was
/// written is current then.
pub proof fn law_only_a_change_or_a_silence_begins_a_run(
    slot: Slot,
    held: LastWrite,
    seen: Observation,
    now: Tick,
)
    requires
        slot.held == Some(held),
        held.run_from.0 <= held.written.0 <= now.0,
        seen.spec_reading() is Some,
        seen.spec_quality().validity() is Current,
    ensures
        ({
            let after = slot.spec_written(now, seen);
            let silent = now.0 - held.written.0 > slot.limits.spec_max_age().0;
            let hung = slot.limits.spec_max_unchanged() is Some && now.0 - held.run_from.0 > (
            slot.limits.spec_max_unchanged()->0).0;
            &&& after.sig == slot.sig
            &&& after.limits == slot.limits
            &&& after.spec_sample(now) is Ok
            &&& after.spec_sample(now)->Ok_0.value == seen.spec_reading()
            &&& after.spec_sample(now)->Ok_0.q.validity() is Stale <==> !silent && seen
                == held.seen && hung
        }),
{
}

/// A signal nobody has written is initialising, without a value; one written
/// without a value says why, whenever it is asked.
pub proof fn law_no_value_says_why(slot: Slot, now: Tick)
    ensures
        slot.held is None ==> (slot.spec_sample(now) matches Ok(sample) && sample.value is None
            && sample.age is None && sample.q.validity() == Validity::Initialising
            && sample.q.provenance() == Provenance::Nowhere && sample.sig == slot.sig),
        slot.held matches Some(held) ==> (held.seen.spec_reading() is None ==> (slot.spec_sample(
            now,
        ) matches Ok(sample) && sample.value is None && sample.age is None && sample.q
            == held.seen.spec_quality() && sample.sig == slot.sig)),
{
}

/// A sample is refused for one reason, a tick before the last write of a value.
pub proof fn law_a_sample_is_refused_only_for_going_back(slot: Slot, now: Tick)
    requires
        slot.held matches Some(held) ==> held.run_from.0 <= held.written.0,
    ensures
        slot.spec_sample(now) matches Err(why) ==> why == SignalError::TickBehind(slot.sig),
        slot.spec_sample(now) is Err <==> (slot.held matches Some(held)
            && held.seen.spec_reading() is Some && now.0 < held.written.0),
{
}

} // verus!
