//! A NOR part: what it holds, and the three things it can be asked.
//!
//! A program clears bits and never sets one; an erase sets every bit of the
//! blocks it covers. A part may refuse any request, and a program or an erase
//! it refused may have been cut short part of the way through.

use vstd::prelude::*;

verus! {

/// `base` with the bits that `over` clears cleared, from `at` on.
pub open spec fn programmed(base: Seq<u8>, at: int, over: Seq<u8>) -> Seq<u8> {
    Seq::new(
        base.len(),
        |i: int|
            if at <= i < at + over.len() {
                base[i] & over[i - at]
            } else {
                base[i]
            },
    )
}

/// `base` with every byte in `from..to` erased.
pub open spec fn wiped(base: Seq<u8>, from: int, to: int) -> Seq<u8> {
    Seq::new(
        base.len(),
        |i: int|
            if from <= i < to {
                0xFFu8
            } else {
                base[i]
            },
    )
}

/// Whether `a` and `b` differ at most inside `from..to`.
pub open spec fn same_outside(a: Seq<u8>, b: Seq<u8>, from: int, to: int) -> bool {
    &&& a.len() == b.len()
    &&& forall|i: int| 0 <= i < a.len() && !(from <= i < to) ==> a[i] == b[i]
}

/// A NOR part the log can live on. What one that says nothing of its bytes holds
/// is left open.
pub trait NorPart: Sized {
    /// Why the part refused.
    type Refusal;

    /// The bytes on the part.
    open spec fn image(&self) -> Seq<u8> {
        arbitrary::<spec_fn(Self) -> Seq<u8>>()(*self)
    }

    /// The bytes one erase covers, a constant of the part.
    open spec fn erase_bytes(&self) -> usize {
        arbitrary::<spec_fn(Self) -> usize>()(*self)
    }

    /// The bytes one program covers, a constant of the part.
    open spec fn write_bytes(&self) -> usize {
        arbitrary::<spec_fn(Self) -> usize>()(*self)
    }

    /// Whether the part never refuses a request that stays inside it.
    open spec fn sound(&self) -> bool {
        arbitrary::<spec_fn(Self) -> bool>()(*self)
    }

    /// The bytes one erase covers.
    fn erase_size(&self) -> (r: usize)
        ensures
            r == self.erase_bytes(),
    ;

    /// The bytes one program covers.
    fn write_size(&self) -> (r: usize)
        ensures
            r == self.write_bytes(),
    ;

    /// The bytes on the part.
    fn capacity(&self) -> (r: usize)
        ensures
            r == self.image().len(),
    ;

    /// Read `len` bytes at `at` into `into`, from `start` on.
    fn read(&mut self, at: u32, into: &mut [u8], start: usize, len: usize) -> (r: Result<
        (),
        Self::Refusal,
    >)
        requires
            start + len <= old(into)@.len(),
        ensures
            final(self).image() == old(self).image(),
            final(self).erase_bytes() == old(self).erase_bytes(),
            final(self).write_bytes() == old(self).write_bytes(),
            final(self).sound() == old(self).sound(),
            final(into)@.len() == old(into)@.len(),
            r is Ok ==> at + len <= old(self).image().len(),
            r is Ok ==> final(into)@ == crate::bytes::spliced(
                old(into)@,
                start as int,
                old(self).image().subrange(at as int, at + len),
            ),
            old(self).sound() && at + len <= old(self).image().len() ==> r is Ok,
    ;

    /// Program `bytes` at `at`.
    fn write(&mut self, at: u32, bytes: &[u8]) -> (r: Result<(), Self::Refusal>)
        ensures
            final(self).erase_bytes() == old(self).erase_bytes(),
            final(self).write_bytes() == old(self).write_bytes(),
            final(self).sound() == old(self).sound(),
            r is Ok ==> at + bytes@.len() <= old(self).image().len(),
            r is Ok ==> final(self).image() == programmed(
                old(self).image(),
                at as int,
                bytes@,
            ),
            same_outside(
                final(self).image(),
                old(self).image(),
                at as int,
                at + bytes@.len(),
            ),
            old(self).sound() && at + bytes@.len() <= old(self).image().len() ==> r is Ok,
    ;

    /// Erase the bytes in `from..to`.
    fn erase(&mut self, from: u32, to: u32) -> (r: Result<(), Self::Refusal>)
        ensures
            final(self).erase_bytes() == old(self).erase_bytes(),
            final(self).write_bytes() == old(self).write_bytes(),
            final(self).sound() == old(self).sound(),
            r is Ok ==> to <= old(self).image().len(),
            r is Ok ==> final(self).image() == wiped(old(self).image(), from as int, to as int),
            same_outside(final(self).image(), old(self).image(), from as int, to as int),
            old(self).sound() && from <= to <= old(self).image().len() ==> r is Ok,
    ;
}

/// The one refusal a part in memory has: the request does not stay inside it.
#[derive(Debug, Clone, Copy, PartialEq, Eq, Structural)]
pub struct PastTheEnd;

/// A byte-programmable NOR part held in memory: what a simulator runs on.
pub struct MemoryPart {
    /// The bytes on the part.
    pub bytes: Vec<u8>,
    /// The bytes one erase covers.
    pub erase: usize,
    /// Bytes read since the part was made.
    pub read: usize,
}

impl MemoryPart {
    /// A part of `len` bytes, every one erased.
    pub fn erased(len: usize, erase: usize) -> (r: Self)
        ensures
            r.image() == Seq::new(len as nat, |i: int| 0xFFu8),
            r.erase_bytes() == erase,
            r.write_bytes() == 1,
            r.sound(),
    {
        let mut bytes: Vec<u8> = Vec::new();
        let mut i: usize = 0;
        while i < len
            invariant
                i <= len,
                bytes@ == Seq::new(i as nat, |j: int| 0xFFu8),
            decreases len - i,
        {
            bytes.push(0xFF);
            i = i + 1;
        }
        MemoryPart { bytes, erase, read: 0 }
    }
}

impl NorPart for MemoryPart {
    type Refusal = PastTheEnd;

    open spec fn image(&self) -> Seq<u8> {
        self.bytes@
    }

    open spec fn erase_bytes(&self) -> usize {
        self.erase
    }

    open spec fn write_bytes(&self) -> usize {
        1
    }

    open spec fn sound(&self) -> bool {
        true
    }

    fn erase_size(&self) -> (r: usize) {
        self.erase
    }

    fn write_size(&self) -> (r: usize) {
        1
    }

    fn capacity(&self) -> (r: usize) {
        self.bytes.len()
    }

    fn read(&mut self, at: u32, into: &mut [u8], start: usize, len: usize) -> (r: Result<
        (),
        PastTheEnd,
    >) {
        let at: usize = at as usize;
        let room: usize = self.bytes.len();
        if at > room || len > room - at {
            return Err(PastTheEnd);
        }
        self.read = self.read.saturating_add(len);
        let found = &self.bytes.as_slice()[at..at + len];
        crate::bytes::copy_at(into, start, found);
        Ok(())
    }

    fn write(&mut self, at: u32, bytes: &[u8]) -> (r: Result<(), PastTheEnd>) {
        let at: usize = at as usize;
        let room: usize = self.bytes.len();
        if at > room || bytes.len() > room - at {
            return Err(PastTheEnd);
        }
        let mut i: usize = 0;
        while i < bytes.len()
            invariant
                i <= bytes@.len(),
                at + bytes@.len() <= room,
                self.bytes@.len() == room == old(self).bytes@.len(),
                self.erase == old(self).erase,
                forall|j: int|
                    0 <= j < room ==> #[trigger] self.bytes@[j] == (if at <= j < at + i {
                        old(self).bytes@[j] & bytes@[j - at]
                    } else {
                        old(self).bytes@[j]
                    }),
            decreases bytes@.len() - i,
        {
            let cleared: u8 = self.bytes[at + i] & bytes[i];
            self.bytes[at + i] = cleared;
            i = i + 1;
        }
        proof {
            assert(self.bytes@ =~= programmed(old(self).bytes@, at as int, bytes@));
        }
        Ok(())
    }

    fn erase(&mut self, from: u32, to: u32) -> (r: Result<(), PastTheEnd>) {
        let from: usize = from as usize;
        let to: usize = to as usize;
        let room: usize = self.bytes.len();
        if from > to || to > room {
            return Err(PastTheEnd);
        }
        let mut i: usize = from;
        while i < to
            invariant
                from <= i <= to <= room,
                self.bytes@.len() == room == old(self).bytes@.len(),
                self.erase == old(self).erase,
                forall|j: int|
                    0 <= j < room ==> #[trigger] self.bytes@[j] == (if from <= j < i {
                        0xFFu8
                    } else {
                        old(self).bytes@[j]
                    }),
            decreases to - i,
        {
            self.bytes[i] = 0xFF;
            i = i + 1;
        }
        proof {
            assert(self.bytes@ =~= wiped(old(self).bytes@, from as int, to as int));
        }
        Ok(())
    }
}

} // verus!
