//! The numbers the client protocol names things by. Each is a type of its own,
//! and none that names a thing is ever zero.

use vstd::prelude::*;

verus! {

/// A request's number within its session. Zero is a value: an unsolicited
/// frame carries it.
#[derive(Debug, Clone, Copy, PartialEq, Eq, PartialOrd, Ord, Hash, Structural)]
pub struct ReqId(pub u32);

/// A record's place in the log.
#[derive(Debug, Clone, Copy, PartialEq, Eq, PartialOrd, Ord, Hash, Structural)]
pub struct LogSeq(pub u64);

/// A connection's handle, never zero: zero is the link itself.
#[derive(Debug, Clone, Copy, PartialEq, Eq, Hash, Structural)]
pub struct Conn(u16);

/// A slot of the client table, counted from one.
#[derive(Debug, Clone, Copy, PartialEq, Eq, Hash, Structural)]
pub struct ClientId(u32);

/// How many times a slot has been keyed, from one.
#[derive(Debug, Clone, Copy, PartialEq, Eq, PartialOrd, Ord, Hash, Structural)]
pub struct Generation(u32);

/// The provisioning epoch: it starts at one and only climbs.
#[derive(Debug, Clone, Copy, PartialEq, Eq, PartialOrd, Ord, Hash, Structural)]
pub struct Epoch(u32);

impl View for Conn {
    type V = u16;

    closed spec fn view(&self) -> u16 {
        self.0
    }
}

impl View for ClientId {
    type V = u32;

    closed spec fn view(&self) -> u32 {
        self.0
    }
}

impl View for Generation {
    type V = u32;

    closed spec fn view(&self) -> u32 {
        self.0
    }
}

impl View for Epoch {
    type V = u32;

    closed spec fn view(&self) -> u32 {
        self.0
    }
}

impl Conn {
    #[verifier::type_invariant]
    spec fn never_zero(self) -> bool {
        self.0 != 0
    }

    /// One handle is one connection.
    pub proof fn same_handle(a: Self, b: Self)
        ensures
            a@ == b@ <==> a == b,
    {
    }

    /// The connection with this handle, in the mathematical sense.
    pub closed spec fn spec_of(handle: u16) -> Self {
        Conn(handle)
    }

    /// What the connection with a handle is numbered.
    pub broadcast proof fn lemma_of(handle: u16)
        ensures
            (#[trigger] Self::spec_of(handle))@ == handle,
    {
    }

    /// The connection with this handle, or nothing for zero.
    pub fn new(handle: u16) -> (r: Option<Self>)
        ensures
            r == if handle == 0 {
                None
            } else {
                Some(Self::spec_of(handle))
            },
            r matches Some(conn) ==> conn@ == handle,
    {
        if handle == 0 {
            None
        } else {
            Some(Conn(handle))
        }
    }

    /// The handle.
    pub fn get(self) -> (r: u16)
        ensures
            r == self@,
            r != 0,
    {
        proof {
            use_type_invariant(&self);
        }
        self.0
    }
}

impl ClientId {
    #[verifier::type_invariant]
    spec fn never_zero(self) -> bool {
        self.0 != 0
    }

    /// One number is one slot.
    pub proof fn same_number(a: Self, b: Self)
        ensures
            a@ == b@ <==> a == b,
    {
    }

    /// The slot with this number, in the mathematical sense.
    pub closed spec fn spec_of(raw: u32) -> Self {
        ClientId(raw)
    }

    /// What the slot with a number is numbered.
    pub broadcast proof fn lemma_of(raw: u32)
        ensures
            (#[trigger] Self::spec_of(raw))@ == raw,
    {
    }

    /// The slot with this number, or nothing for zero.
    pub fn new(raw: u32) -> (r: Option<Self>)
        ensures
            r == if raw == 0 {
                None
            } else {
                Some(Self::spec_of(raw))
            },
            r matches Some(id) ==> id@ == raw,
    {
        if raw == 0 {
            None
        } else {
            Some(ClientId(raw))
        }
    }

    /// The number.
    pub fn get(self) -> (r: u32)
        ensures
            r == self@,
            r != 0,
    {
        proof {
            use_type_invariant(&self);
        }
        self.0
    }
}

impl Generation {
    #[verifier::type_invariant]
    spec fn never_zero(self) -> bool {
        self.0 != 0
    }

    /// The generation of a slot's first enrolment.
    pub fn first() -> (r: Self)
        ensures
            r@ == 1,
    {
        Generation(1)
    }

    /// The generation with this number, or nothing for zero.
    pub fn new(raw: u32) -> (r: Option<Self>)
        ensures
            r is None <==> raw == 0,
            r matches Some(generation) ==> generation@ == raw,
    {
        if raw == 0 {
            None
        } else {
            Some(Generation(raw))
        }
    }

    /// The number.
    pub fn get(self) -> (r: u32)
        ensures
            r == self@,
            r != 0,
    {
        proof {
            use_type_invariant(&self);
        }
        self.0
    }
}

impl Epoch {
    #[verifier::type_invariant]
    spec fn never_zero(self) -> bool {
        self.0 != 0
    }

    /// One number is one epoch.
    pub proof fn same_number(a: Self, b: Self)
        ensures
            a@ == b@ <==> a == b,
    {
    }

    /// What a unit leaves the factory holding, in the mathematical sense.
    pub closed spec fn spec_first() -> Self {
        Epoch(1)
    }

    /// The first epoch is one.
    pub proof fn lemma_first()
        ensures
            Self::spec_first()@ == 1,
    {
    }

    /// What a unit leaves the factory holding.
    pub fn first() -> (r: Self)
        ensures
            r == Self::spec_first(),
            r@ == 1,
    {
        Epoch(1)
    }

    /// The epoch with this number, or nothing for zero.
    pub fn new(raw: u32) -> (r: Option<Self>)
        ensures
            r is None <==> raw == 0,
            r matches Some(epoch) ==> epoch@ == raw,
    {
        if raw == 0 {
            None
        } else {
            Some(Epoch(raw))
        }
    }

    /// The number.
    pub fn get(self) -> (r: u32)
        ensures
            r == self@,
            r != 0,
    {
        proof {
            use_type_invariant(&self);
        }
        self.0
    }
}

} // verus!
