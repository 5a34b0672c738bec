//! The fixed-size bodies records carry: how a value becomes bytes and how
//! bytes that read wrong are refused.

use vstd::prelude::*;

use crate::bytes::copy_at;

verus! {

/// Bytes that frame and do not mean anything, at the offset where the
/// meaning ran out.
#[derive(Debug, Clone, Copy, PartialEq, Eq, Structural)]
pub struct Malformed {
    /// The offset in the body.
    pub at: usize,
}

/// What a record's slot on the part read as.
#[derive(Debug, Clone, Copy, PartialEq, Eq, Structural)]
pub enum Held<T> {
    /// A body that decoded.
    Present(T),
    /// Never written.
    Absent,
    /// Written, and neither copy frames.
    Corrupt,
    /// Framed, and the body means nothing.
    Malformed(Malformed),
}

/// Whether a decoding came out as the reading of its bytes.
pub open spec fn read_as<T: View>(r: Result<T, Malformed>, reading: Result<T::V, Malformed>) -> bool {
    match r {
        Ok(x) => reading == Ok::<T::V, Malformed>(x@),
        Err(m) => reading == Err::<T::V, Malformed>(m),
    }
}

/// `s` and zeros after it, `n` bytes in all.
pub open spec fn padded(s: Seq<u8>, n: nat) -> Seq<u8> {
    Seq::new(
        n,
        |i: int|
            if i < s.len() {
                s[i]
            } else {
                0u8
            },
    )
}

/// A body that starts with `parts` and is zero after them.
pub fn body_of<const N: usize>(parts: &[u8]) -> (r: [u8; N])
    requires
        parts@.len() <= N,
    ensures
        r@ == padded(parts@, N as nat),
{
    let mut out = [0u8; N];
    proof {
        assert(out == vstd::array::spec_array_fill_for_copy_type::<u8, N>(0u8));
        assert(out@ =~= Seq::new(N as nat, |i: int| 0u8));
    }
    copy_at(&mut out, 0, parts);
    proof {
        assert(out@ =~= padded(parts@, N as nat));
    }
    out
}

/// Why the part kept nothing of a write.
#[derive(Debug, Clone, Copy, PartialEq, Eq, Structural)]
pub enum Refused {
    /// The supply is falling, and a write begun now might not finish.
    SupplyFalling,
    /// The day's budget of writes is spent.
    AtTheCeiling,
    /// The bus to the part failed.
    Bus,
}

/// A value with a body of exactly `N` bytes.
pub trait Body<const N: usize>: View + Sized {
    /// The bytes a value is kept as.
    spec fn image(v: Self::V) -> Seq<u8>;

    /// What `bytes` mean.
    spec fn reading(bytes: Seq<u8>) -> Result<Self::V, Malformed>;

    /// The body.
    fn encode(&self) -> (r: [u8; N])
        ensures
            r@ == Self::image(self@),
    ;

    /// The value the body means, or where it stops meaning anything.
    fn decode(bytes: &[u8; N]) -> (r: Result<Self, Malformed>)
        ensures
            read_as(r, Self::reading(bytes@)),
    ;
}

} // verus!
