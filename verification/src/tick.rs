//! The tick every duration is measured on, and the wall clock a client sets.

use vstd::prelude::*;

verus! {

/// A moment on the tick: milliseconds since this boot.
#[derive(Debug, Clone, Copy, PartialEq, Eq, PartialOrd, Ord, Hash, Structural)]
pub struct Tick(pub u64);

/// A duration on the tick.
#[derive(Debug, Clone, Copy, PartialEq, Eq, PartialOrd, Ord, Hash, Structural)]
pub struct Millis(pub u64);

impl Millis {
    /// No time at all.
    pub fn zero() -> (r: Self)
        ensures
            r == Millis(0),
    {
        Millis(0)
    }

    /// `millis` milliseconds.
    pub fn from_millis(millis: u64) -> (r: Self)
        ensures
            r == Millis(millis),
    {
        Millis(millis)
    }

    /// `secs` seconds, or nothing for more than can be counted.
    pub fn from_secs(secs: u64) -> (r: Option<Self>)
        ensures
            r is Some <==> secs * 1000 <= u64::MAX,
            r matches Some(duration) ==> duration.0 == secs * 1000,
    {
        match secs.checked_mul(1000) {
            Some(millis) => Some(Millis(millis)),
            None => None,
        }
    }

    /// The duration in milliseconds.
    pub fn as_millis(self) -> (r: u64)
        ensures
            r == self.0,
    {
        self.0
    }

    /// The duration in whole seconds, rounded down.
    pub fn as_secs(self) -> (r: u64)
        ensures
            r == self.0 / 1000,
    {
        self.0 / 1000
    }
}

impl Tick {
    /// The start of the boot.
    pub fn zero() -> (r: Self)
        ensures
            r == Tick(0),
    {
        Tick(0)
    }

    /// `millis` milliseconds into the boot.
    pub fn from_millis(millis: u64) -> (r: Self)
        ensures
            r == Tick(millis),
    {
        Tick(millis)
    }

    /// Milliseconds since the boot.
    pub fn as_millis(self) -> (r: u64)
        ensures
            r == self.0,
    {
        self.0
    }

    /// How long after `earlier` this is, in the mathematical sense.
    pub open spec fn spec_since(self, earlier: Tick) -> Option<Millis> {
        if self.0 >= earlier.0 {
            Some(Millis((self.0 - earlier.0) as u64))
        } else {
            None
        }
    }

    /// How long after `earlier` this is, or `None` when it is before it.
    pub fn since(self, earlier: Self) -> (r: Option<Millis>)
        ensures
            r == self.spec_since(earlier),
    {
        match self.0.checked_sub(earlier.0) {
            Some(elapsed) => Some(Millis(elapsed)),
            None => None,
        }
    }

    /// The moment `by` later, in the mathematical sense.
    pub open spec fn spec_after(self, by: Millis) -> Option<Tick> {
        if self.0 + by.0 <= u64::MAX {
            Some(Tick((self.0 + by.0) as u64))
        } else {
            None
        }
    }

    /// The moment `by` later, or `None` past the end of the tick.
    pub fn after(self, by: Millis) -> (r: Option<Self>)
        ensures
            r == self.spec_after(by),
    {
        match self.0.checked_add(by.0) {
            Some(at) => Some(Tick(at)),
            None => None,
        }
    }
}

/// Reads the tick.
pub trait Clock {
    /// The tick now.
    fn now(&self) -> Tick;
}

/// The wall clock as a client last set it: milliseconds since the Unix epoch,
/// never zero.
///
/// A moment a record carries so a person can read when, and never the base of
/// a duration. Zero is not a time the controller accepts, so a stored zero
/// reads as *no clock*.
#[derive(Debug, Clone, Copy, PartialEq, Eq, PartialOrd, Ord, Hash, Structural)]
pub struct UnixMillis(u64);

impl View for UnixMillis {
    type V = u64;

    closed spec fn view(&self) -> u64 {
        self.0
    }
}

impl UnixMillis {
    #[verifier::type_invariant]
    spec fn never_zero(self) -> bool {
        self.0 != 0
    }

    /// Two wall-clock moments are the same when their counts are.
    pub proof fn same_count_same_moment(a: Self, b: Self)
        requires
            a@ == b@,
        ensures
            a == b,
    {
    }

    /// `millis` since the Unix epoch, or nothing for zero.
    pub fn new(millis: u64) -> (r: Option<Self>)
        ensures
            r is None <==> millis == 0,
            r matches Some(t) ==> t@ == millis,
    {
        if millis == 0 {
            None
        } else {
            Some(Self(millis))
        }
    }

    /// Milliseconds since the Unix epoch.
    pub fn as_millis(self) -> (r: u64)
        ensures
            r == self@,
            r != 0,
    {
        proof {
            use_type_invariant(&self);
        }
        self.0
    }

    /// How long after `earlier` this is, or `None` when it is before it.
    pub fn since(self, earlier: Self) -> (r: Option<Millis>)
        ensures
            r is Some <==> self@ >= earlier@,
            r matches Some(d) ==> d.0 == self@ - earlier@,
    {
        match self.0.checked_sub(earlier.0) {
            Some(elapsed) => Some(Millis(elapsed)),
            None => None,
        }
    }
}

} // verus!
