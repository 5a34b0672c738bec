//! How many times this unit has booted: a count that is never zero.

use vstd::prelude::*;

use crate::body::{body_of, Body, Malformed};
use crate::bytes::{from_le, le, lemma_from_le_bound, lemma_le_len, lemma_le_round_trip, lemma_spans, push_le, read_le};

verus! {

broadcast use lemma_le_len;

/// The bytes a boot count takes.
pub const BOOT_COUNT_BYTES: usize = 4;

/// A boot's number, from one.
#[derive(Debug, Clone, Copy, PartialEq, Eq, Structural)]
pub struct BootCount(u32);

impl View for BootCount {
    type V = u32;

    closed spec fn view(&self) -> u32 {
        self.0
    }
}

impl BootCount {
    #[verifier::type_invariant]
    spec fn never_zero(self) -> bool {
        self.0 != 0
    }

    /// Two boots of one number are the same boot.
    pub proof fn same_number_same_boot(a: Self, b: Self)
        requires
            a@ == b@,
        ensures
            a == b,
    {
    }

    /// The first boot, in the mathematical sense.
    pub closed spec fn spec_first() -> Self {
        BootCount(1)
    }

    /// The boot after this one, in the mathematical sense.
    pub closed spec fn spec_next(self) -> Self {
        if self.0 == u32::MAX {
            self
        } else {
            BootCount((self.0 + 1) as u32)
        }
    }

    /// What the first boot and the one after this one are numbered.
    pub proof fn lemma_numbers(self)
        ensures
            Self::spec_first()@ == 1,
            self.spec_next()@ == if self@ == u32::MAX {
                u32::MAX
            } else {
                (self@ + 1) as u32
            },
    {
    }

    /// The first boot.
    pub fn first() -> (r: Self)
        ensures
            r == Self::spec_first(),
            r@ == 1,
    {
        BootCount(1)
    }

    /// The boot after this one; the last number there is stays the last.
    pub fn next(self) -> (r: Self)
        ensures
            r == self.spec_next(),
            r@ == if self@ == u32::MAX {
                u32::MAX
            } else {
                (self@ + 1) as u32
            },
    {
        proof {
            use_type_invariant(&self);
        }
        if self.0 == u32::MAX {
            self
        } else {
            BootCount(self.0 + 1)
        }
    }

    /// The number.
    pub fn get(self) -> (r: u32)
        ensures
            r == self@,
            r != 0,
    {
        proof {
            use_type_invariant(&self);
        }
        self.0
    }

    /// The boot numbered `count`, or nothing for zero.
    pub fn of(count: u32) -> (r: Option<Self>)
        ensures
            r is Some <==> count != 0,
            r matches Some(b) ==> b@ == count,
    {
        if count == 0 {
            None
        } else {
            Some(BootCount(count))
        }
    }
}

impl Body<4> for BootCount {
    open spec fn image(v: u32) -> Seq<u8> {
        le(v as nat, 4)
    }

    open spec fn reading(bytes: Seq<u8>) -> Result<u32, Malformed> {
        if from_le(bytes) == 0 {
            Err(Malformed { at: 0 })
        } else {
            Ok(from_le(bytes) as u32)
        }
    }

    fn encode(&self) -> (r: [u8; 4]) {
        let mut parts: Vec<u8> = Vec::new();
        push_le(&mut parts, self.0 as u64, 4);
        let r = body_of::<4>(parts.as_slice());
        proof {
            assert(r@ =~= le(self.0 as nat, 4));
        }
        r
    }

    fn decode(bytes: &[u8; 4]) -> (r: Result<Self, Malformed>) {
        let count: u64 = read_le(bytes.as_slice());
        proof {
            lemma_from_le_bound(bytes@);
            lemma_spans();
        }
        match BootCount::of(count as u32) {
            Some(boot) => Ok(boot),
            None => Err(Malformed { at: 0 }),
        }
    }
}

/// A boot count written down reads back as the same count.
pub proof fn law_a_boot_count_reads_back(count: u32)
    requires
        count != 0,
    ensures
        <BootCount as Body<4>>::reading(<BootCount as Body<4>>::image(count)) == Ok::<u32, Malformed>(
            count,
        ),
{
    lemma_spans();
    lemma_le_round_trip(count as nat, 4);
}

/// Zero is no boot, and every other count is: what reads is what was written.
pub proof fn law_only_zero_is_no_boot(bytes: Seq<u8>)
    requires
        bytes.len() == 4,
    ensures
        <BootCount as Body<4>>::reading(bytes) is Err <==> from_le(bytes) == 0,
        <BootCount as Body<4>>::reading(bytes) matches Ok(count) ==> count == from_le(bytes),
{
    lemma_from_le_bound(bytes);
    lemma_spans();
}

/// Each boot is numbered one above the last, and the last number there is stays
/// the last.
pub proof fn law_boots_count_up(boot: BootCount)
    ensures
        BootCount::spec_first()@ == 1,
        boot@ < u32::MAX ==> boot.spec_next()@ == boot@ + 1,
        boot@ == u32::MAX ==> boot.spec_next()@ == u32::MAX,
{
}

} // verus!
