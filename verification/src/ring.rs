//! The event log on NOR: where it continues after a reboot, how a record
//! lands, and how a client reads from a sequence number.
//!
//! Append-only records over a ring of erase blocks. A torn write closes its
//! block: the residue cannot be written over and cannot be skipped past, so
//! the block is finished, its records stay readable, and the log continues in
//! the next one. The oldest block is erased one ahead of the write head, so
//! an append never waits on an erase. Nothing is held per block: a boot finds
//! the head by halving over the first record of each block, and every read
//! goes through one record's worth of scratch.

use crate::bytes::all_are;
use crate::nor::{programmed, same_outside, wiped, NorPart};
use crate::record::{
    claimed_len, framed_len, image, verified, Class, Entry, Found, Framed, Header, Unframed, HEADER,
    MAGIC_BYTES, MAGIC_HIGH, MAGIC_LOW, MAX_PAYLOAD, MAX_RECORD, OVERHEAD,
};
use crate::ring_model::{
    after, ahead, anchor, at_or_after, bisect, bisect_run, blank, cleared, erased, erased_head,
    finding, first_at, first_erased, following, fresh_start, nearest, next_magic, oldest,
    past_closed, readable, reading, run_first, run_len, run_start, scan, scan_from,
    turned, appended, placed, event_of, stamp, newest_stamp, Finding, Stop, Walk, PROBE_REACH,
};
use vstd::prelude::*;

pub use crate::ring_model::{Head, Probe};

verus! {

/// The scratch every operation wants: one record at its largest.
pub const SCRATCH: usize = MAX_RECORD;

/// Bytes read at a time while hunting for a magic or checking for erasure.
pub const WINDOW: usize = 64;

/// What the boot's scan had to step over.
#[derive(Debug, Clone, Copy, PartialEq, Eq, Structural)]
pub struct Damage {
    /// Records whose CRC did not hold: a chip somebody has to look at.
    pub failed_crc: u32,
    /// Blocks closed by a torn write: ordinary, and counted so a rate is
    /// visible.
    pub closed: u32,
}

impl Default for Damage {
    fn default() -> (r: Self)
        ensures
            r == (Damage { failed_crc: 0, closed: 0 }),
    {
        Damage { failed_crc: 0, closed: 0 }
    }
}

/// Why the ring could not be opened, appended to or read.
#[derive(Debug, Clone, Copy, PartialEq, Eq)]
pub enum RingError<E> {
    /// Fewer than two blocks: the one being written and the one erased ahead
    /// of it cannot be the same block.
    TooFewBlocks(u32),
    /// A block too small for one record at its largest.
    BlockTooSmall(usize),
    /// The part programs more than a byte at a time.
    WriteSizeNotOne(usize),
    /// The scratch offered is smaller than [`SCRATCH`].
    ScratchTooSmall(usize),
    /// An address past the part.
    OutOfRange,
    /// The record could not be framed.
    Unframed(Unframed),
    /// The payload is not an event, or names another sequence than the one
    /// the ring hands out next.
    NotTheNextEvent,
    /// A block of the ring's own, which only [`Ring::drop_oldest`] erases.
    InsideTheRing(u32),
    /// The part refused.
    Flash(E),
}

/// What [`Ring::drop_oldest`] did.
#[derive(Debug, Clone, Copy, PartialEq, Eq, Structural)]
pub enum Dropped {
    /// The ring held no records.
    Nothing,
    /// The block erased, counted within the ring, and the oldest sequence the
    /// ring holds after it, if any.
    Block {
        /// The block, counted from the ring's first.
        block: u32,
        /// The oldest sequence left.
        oldest: Option<u64>,
    },
}

/// Whether a reader wants more.
#[derive(Debug, Clone, Copy, PartialEq, Eq, Structural)]
pub enum Wants {
    /// Keep going.
    More,
    /// Stop here: the page is full, which is not the same as the log ending.
    Enough,
}

/// The newest wall-clock timestamp the log holds, once looked for.
#[derive(Debug, Clone, Copy, PartialEq, Eq, Structural)]
enum Floor {
    /// Not looked for yet.
    Unknown,
    /// Looked for: the newest, or none in the whole ring.
    Found(Option<u64>),
}

/// Where a walk over a block stopped.
enum Halt {
    /// At a record that verifies, now at the front of the scratch.
    Record { end: u32 },
    Tail,
    Residue,
    Reach,
}

/// What a walk over a block came to.
struct Walked {
    failed: u32,
    halt: Halt,
}

impl Walked {
    /// Whether this is the walk `model`, `scratch` holding the record it
    /// stopped at.
    spec fn is(self, model: Walk, scratch: Seq<u8>) -> bool {
        &&& self.failed == model.failed
        &&& match (self.halt, model.stop) {
            (Halt::Record { end }, Stop::Record { end: at, entry, .. }) => {
                &&& end == at
                &&& verified(scratch) == Some(entry)
            },
            (Halt::Tail, Stop::Tail) => true,
            (Halt::Residue, Stop::Residue) => true,
            (Halt::Reach, Stop::Reach) => true,
            _ => false,
        }
    }
}

/// What a scan of one block found.
struct Scanned {
    last: Option<u64>,
    /// The end of the last verified record: where an append would go.
    tail: u32,
    /// Something is written past the last verified record with no record
    /// after it: the block is finished.
    closed: bool,
    failed_crc: u32,
}

/// The ring on a part.
pub struct Ring<N> {
    flash: N,
    from: u32,
    blocks: u32,
    head: Head,
    damage: Damage,
    floor: Floor,
}

/// Block `j` ends no later than block `k` starts, for `j < k`.
proof fn lemma_apart(j: int, k: int, len: int)
    requires
        0 <= j < k,
        0 <= len,
    ensures
        0 <= j * len,
        j * len + len <= k * len,
{
    assert(0 <= j * len) by (nonlinear_arith)
        requires
            0 <= j,
            0 <= len,
    ;
    assert(j * len + len <= k * len) by (nonlinear_arith)
        requires
            0 <= j < k,
            0 <= len,
    ;
}

/// Positions that start no magic can be stepped over.
proof fn lemma_no_magic_between(block: Seq<u8>, from: int, to: int, end: int)
    requires
        0 <= from <= to,
        forall|p: int|
            from <= p < to && p + 1 < end ==> !(#[trigger] block[p] == MAGIC_LOW && block[p + 1]
                == MAGIC_HIGH),
    ensures
        next_magic(block, from, end) == next_magic(block, to, end),
    decreases to - from,
{
    if from < to && from + 1 < end {
        assert(!(block[from] == MAGIC_LOW && block[from + 1] == MAGIC_HIGH));
        lemma_no_magic_between(block, from + 1, to, end);
    }
}

/// A header is read out of its own bytes alone.
proof fn lemma_same_header(a: Seq<u8>, b: Seq<u8>)
    requires
        a.len() >= HEADER,
        b.len() >= HEADER,
        forall|i: int| 0 <= i < HEADER ==> a[i] == b[i],
    ensures
        Header::spec_parse(a) == Header::spec_parse(b),
{
    assert(a.subrange(2, 4) =~= b.subrange(2, 4));
    assert(a.subrange(4, 12) =~= b.subrange(4, 12));
}

/// The bytes of each of `blocks` blocks of `len` bytes from `from` on.
pub open spec fn parts_of(image: Seq<u8>, from: int, len: int, blocks: nat) -> Seq<Seq<u8>> {
    Seq::new(blocks, |k: int| image.subrange(from + k * len, from + k * len + len))
}

/// A block of `erase` bytes, as far as an address goes.
pub open spec fn block_len_of(erase: usize) -> u32 {
    if erase <= u32::MAX {
        erase as u32
    } else {
        u32::MAX
    }
}

/// Whether `blocks` blocks of `len` bytes from `from` on lie on a part of
/// `capacity` bytes, at an address a part has.
pub open spec fn fits_on(capacity: nat, from: u32, len: u32, blocks: u32) -> bool {
    &&& from + blocks * len <= u32::MAX
    &&& from + blocks * len <= capacity
}

/// Why a ring cannot be opened on `flash`, before anything is read.
pub open spec fn unopened<N: NorPart>(flash: N, blocks: u32, scratch: nat) -> Option<
    RingError<N::Refusal>,
> {
    if flash.write_bytes() != 1 {
        Some(RingError::WriteSizeNotOne(flash.write_bytes()))
    } else if flash.erase_bytes() < MAX_RECORD {
        Some(RingError::BlockTooSmall(flash.erase_bytes()))
    } else if blocks < 2 {
        Some(RingError::TooFewBlocks(blocks))
    } else if scratch < SCRATCH {
        Some(RingError::ScratchTooSmall(scratch as usize))
    } else {
        None
    }
}

/// Why an append is refused before anything lands: the payload is past what a
/// block can hold, the scratch is short, or the bytes are not the event the
/// ring hands out next.
pub open spec fn unappended<N: NorPart>(
    erase: usize,
    next_seq: u64,
    payload: nat,
    event: Option<(u64, Option<u64>)>,
    scratch: nat,
) -> Option<RingError<N::Refusal>> {
    if OVERHEAD + payload > erase && (OVERHEAD + payload <= usize::MAX || erase < usize::MAX) {
        Some(RingError::Unframed(Unframed::PayloadTooLong(payload as usize)))
    } else if scratch < SCRATCH {
        Some(RingError::ScratchTooSmall(scratch as usize))
    } else if event is None || (event->0).0 != next_seq {
        Some(RingError::NotTheNextEvent)
    } else {
        None
    }
}

/// Whether a block that held `was` and now holds `is` is what programming
/// `record` at `at` leaves when it is cut short: the two bytes of the magic are
/// as they were, or every other byte of the record has landed.
pub open spec fn magic_last(was: Seq<u8>, is: Seq<u8>, at: int, record: Seq<u8>) -> bool {
    ||| is[at] == was[at] && is[at + 1] == was[at + 1]
    ||| forall|i: int|
        at + 2 <= i < at + record.len() ==> #[trigger] is[i] == programmed(was, at, record)[i]
}

/// Where a read from `from` starts on a log whose oldest record is `oldest`.
pub open spec fn read_start(from: u64, oldest: u64) -> u64 {
    let start = if from < oldest {
        oldest
    } else {
        from
    };
    if start == 0 {
        1
    } else {
        start
    }
}

/// Whether a visitor that had seen `before` and was offered `all` has now seen
/// `seen`: all of it, or the front of it when it had `enough`; and the
/// sequence to ask for next is one past the last it saw, or `start`.
pub open spec fn shown(
    all: Seq<Entry>,
    before: Seq<Entry>,
    seen: Seq<Entry>,
    start: u64,
    next: u64,
    enough: bool,
) -> bool {
    let n = seen.len() - before.len();
    &&& 0 <= n <= all.len()
    &&& seen == before + all.take(n)
    &&& !enough ==> n == all.len()
    &&& next == (if n > 0 {
        following(all[n - 1].seq)
    } else {
        start
    })
}

/// What [`shown`] says, spelled out.
proof fn lemma_shown(
    all: Seq<Entry>,
    before: Seq<Entry>,
    seen: Seq<Entry>,
    start: u64,
    next: u64,
    enough: bool,
)
    requires
        shown(all, before, seen, start, next, enough),
    ensures
        0 <= seen.len() - before.len() <= all.len(),
        seen == before + all.take(seen.len() - before.len()),
{
}

/// No records hold none at or after `start`.
proof fn lemma_none_at_or_after(start: u64)
    ensures
        at_or_after(Seq::empty(), start) == Seq::<Entry>::empty(),
{
}

/// More records after some only add at the end of what is at or after `start`.
proof fn lemma_at_or_after_prefix(some: Seq<Entry>, more: Seq<Entry>, start: u64)
    ensures
        at_or_after(some, start).len() <= at_or_after(some + more, start).len(),
        at_or_after(some + more, start).take(at_or_after(some, start).len() as int)
            == at_or_after(some, start),
    decreases more.len(),
{
    let all = some + more;
    if more.len() == 0 {
        assert(all =~= some);
        assert(at_or_after(some, start).take(at_or_after(some, start).len() as int)
            =~= at_or_after(some, start));
    } else {
        lemma_at_or_after_prefix(some, more.drop_last(), start);
        assert(all.drop_last() =~= some + more.drop_last());
        assert(at_or_after(all, start).take(at_or_after(some, start).len() as int)
            =~= at_or_after(all.drop_last(), start).take(at_or_after(some, start).len() as int));
    }
}

/// Read an event's sequence and timestamp out of its bytes:
/// `km43::Event::decode`.
///
/// Trusted: what it answers is a function of the bytes alone, named
/// [`event_of`]. Nothing is said of which bytes are an event.
#[verifier::external_body]
fn decode_event(payload: &[u8]) -> (r: Option<(u64, Option<u64>)>)
    ensures
        r == event_of(payload@),
{
    match km43::Event::decode(payload) {
        Ok(event) => Some((event.seq.0, event.at)),
        Err(_) => None,
    }
}

/// The timestamp to remember after `event`: its own when it carries one.
pub fn newer_stamp(so_far: Option<u64>, event: Option<(u64, Option<u64>)>) -> (r: Option<u64>)
    ensures
        r == (match event {
            Some((_, Some(at))) => Some(at),
            _ => so_far,
        }),
{
    match event {
        Some((_, Some(at))) => Some(at),
        _ => so_far,
    }
}

/// Visits the records of a read, oldest first, and says when it has enough.
pub trait Visit: Sized {
    /// What it has been shown.
    open spec fn seen(&self) -> Seq<Entry> {
        arbitrary::<spec_fn(Self) -> Seq<Entry>>()(*self)
    }

    /// What it answered to each of them.
    open spec fn answers(&self) -> Seq<Wants> {
        arbitrary::<spec_fn(Self) -> Seq<Wants>>()(*self)
    }

    /// What of it no visit changes.
    open spec fn lasting(&self) -> int {
        arbitrary::<spec_fn(Self) -> int>()(*self)
    }

    /// See one record.
    fn visit(&mut self, found: &Found<'_>) -> (r: Wants)
        ensures
            final(self).seen() == old(self).seen().push(found@),
            final(self).answers() == old(self).answers().push(r),
            final(self).lasting() == old(self).lasting(),
    ;
}

/// Whether a visitor was asked no further once it had enough: of the answers
/// given since `before`, every one but the last wanted more.
pub open spec fn stopped(before: Seq<Wants>, after: Seq<Wants>) -> bool {
    &&& before.len() <= after.len()
    &&& after.take(before.len() as int) == before
    &&& forall|i: int| before.len() <= i < after.len() - 1 ==> #[trigger] after[i] is More
}

/// Whether the last answer given since `before` was that it is enough.
pub open spec fn had_enough(before: Seq<Wants>, after: Seq<Wants>) -> bool {
    after.len() > before.len() && after.last() is Enough
}

/// One record of a page.
pub struct Line {
    /// The sequence number.
    pub seq: u64,
    /// The class.
    pub class: Class,
    /// The payload.
    pub payload: Vec<u8>,
}

impl View for Line {
    type V = Entry;

    open spec fn view(&self) -> Entry {
        Entry { seq: self.seq, class: self.class, payload: self.payload@ }
    }
}

/// A page of a read: as many records as it has room for.
pub struct LogPage {
    /// The records, oldest first.
    pub lines: Vec<Line>,
    /// How many records are enough.
    pub room: usize,
}

impl LogPage {
    /// An empty page that is full at `room` records.
    pub fn new(room: usize) -> (r: Self)
        ensures
            r.seen() == Seq::<Entry>::empty(),
            r.answers() == Seq::<Wants>::empty(),
            r.room == room,
    {
        let page = LogPage { lines: Vec::new(), room };
        proof {
            assert(page.seen() =~= Seq::<Entry>::empty());
            assert(page.answers() =~= Seq::<Wants>::empty());
        }
        page
    }
}

impl Visit for LogPage {
    open spec fn seen(&self) -> Seq<Entry> {
        self.lines@.map_values(|line: Line| line@)
    }

    /// Enough from the record that fills the page on.
    open spec fn answers(&self) -> Seq<Wants> {
        Seq::new(
            self.lines@.len(),
            |i: int|
                if i + 1 >= self.room {
                    Wants::Enough
                } else {
                    Wants::More
                },
        )
    }

    /// The room.
    open spec fn lasting(&self) -> int {
        self.room as int
    }

    fn visit(&mut self, found: &Found<'_>) -> (r: Wants) {
        let line = Line {
            seq: found.seq,
            class: found.class,
            payload: vstd::slice::slice_to_vec(found.payload),
        };
        let ghost before = *self;
        self.lines.push(line);
        let wants = if self.lines.len() >= self.room {
            Wants::Enough
        } else {
            Wants::More
        };
        proof {
            assert(self.seen() =~= before.seen().push(found@));
            assert(self.answers() =~= before.answers().push(wants));
        }
        wants
    }
}

/// `damage` with what finding the head counted added, as far as it counts.
pub open spec fn counted(damage: Damage, found: Finding) -> Damage {
    Damage {
        failed_crc: if damage.failed_crc + found.failed <= u32::MAX {
            (damage.failed_crc + found.failed) as u32
        } else {
            u32::MAX
        },
        closed: if found.closed && damage.closed < u32::MAX {
            (damage.closed + 1) as u32
        } else {
            damage.closed
        },
    }
}

impl<N: NorPart> Ring<N> {
    /// The bytes of one block, as a number of the part.
    spec fn len(&self) -> u32 {
        block_len_of(self.flash.erase_bytes())
    }

    /// Where block `k` starts on the part.
    spec fn base(&self, k: int) -> int {
        self.from + k * self.len()
    }

    /// The bytes of block `k`.
    spec fn part(&self, k: int) -> Seq<u8> {
        self.flash.image().subrange(self.base(k), self.base(k) + self.len())
    }

    /// The bytes of each of the ring's blocks.
    pub closed spec fn parts(&self) -> Seq<Seq<u8>> {
        parts_of(self.flash.image(), self.from as int, self.len() as int, self.blocks as nat)
    }

    /// Whether the part never refuses a request that stays inside it.
    pub closed spec fn sound(&self) -> bool {
        self.flash.sound()
    }

    /// Whether every block of the ring lies on the part, at an address the
    /// part has.
    pub closed spec fn fits(&self) -> bool {
        fits_on(self.flash.image().len(), self.from, self.len(), self.blocks)
    }

    /// Where the log continues.
    pub closed spec fn spec_head(&self) -> Head {
        self.head
    }

    /// The newest timestamp, when it has been looked for.
    pub closed spec fn known_floor(&self) -> Option<Option<u64>> {
        match self.floor {
            Floor::Unknown => None,
            Floor::Found(found) => Some(found),
        }
    }

    /// What the boot's scan stepped over.
    pub closed spec fn spec_damage(&self) -> Damage {
        self.damage
    }

    /// The bytes of one block.
    pub closed spec fn block_bytes(&self) -> u32 {
        self.len()
    }

    /// The part under the ring.
    pub closed spec fn under(&self) -> N {
        self.flash
    }

    /// The first byte of the ring on the part.
    pub closed spec fn spec_from(&self) -> u32 {
        self.from
    }

    /// The ring's shape: two blocks or more, each holding a record at its
    /// largest, and a head inside one of them.
    pub closed spec fn wf(&self) -> bool {
        &&& self.shaped()
        &&& self.head.block < self.blocks
        &&& self.head.at <= self.len()
        &&& self.head.next_seq >= 1
    }

    spec fn shaped(&self) -> bool {
        &&& self.blocks >= 2
        &&& self.flash.erase_bytes() >= MAX_RECORD
        &&& self.flash.write_bytes() == 1
    }

    /// Whether nothing but the reader's position moved since `before`: the
    /// bytes, the shape, the head and the counts are the same.
    pub open spec fn untouched(&self, before: &Self) -> bool {
        &&& self.same_part(before)
        &&& self.under().image() == before.under().image()
        &&& self.parts() == before.parts()
        &&& self.spec_head() == before.spec_head()
        &&& self.spec_damage() == before.spec_damage()
        &&& self.known_floor() == before.known_floor()
    }

    /// Whether the ring still spans the same blocks of the same part.
    pub open spec fn same_part(&self, before: &Self) -> bool {
        &&& self.same_span(before)
        &&& self.spec_from() == before.spec_from()
        &&& self.parts().len() == before.parts().len()
        &&& self.block_bytes() == before.block_bytes()
        &&& self.fits() == before.fits()
        &&& self.sound() == before.sound()
        &&& self.under().image().len() == before.under().image().len()
        &&& self.under().erase_bytes() == before.under().erase_bytes()
        &&& self.under().write_bytes() == before.under().write_bytes()
        &&& self.under().sound() == before.under().sound()
    }

    /// Whether the ring counts the same blocks.
    pub closed spec fn same_span(&self, before: &Self) -> bool {
        self.blocks == before.blocks
    }

    /// Whether `why` is something a part or an address decides: the part
    /// refuses only when it is not sound or the ring does not fit it, and an
    /// address is past the part only when the ring does not fit it.
    pub open spec fn blameless(&self, why: RingError<N::Refusal>) -> bool {
        match why {
            RingError::Flash(_) => !(self.sound() && self.fits()),
            RingError::OutOfRange => !self.fits(),
            _ => false,
        }
    }

    /// Whether at most the bytes in `from..to` of one block changed since
    /// `before`.
    pub open spec fn kept_but(&self, before: &Self, block: int, from: int, to: int) -> bool {
        &&& self.kept_but_blocks(before, block, block)
        &&& same_outside(self.parts()[block], before.parts()[block], from, to)
    }

    /// Whether at most two blocks changed since `before`.
    pub open spec fn kept_but_blocks(&self, before: &Self, one: int, other: int) -> bool {
        &&& self.parts().len() == before.parts().len()
        &&& forall|k: int|
            0 <= k < before.parts().len() && k != one && k != other ==> (#[trigger] self.parts()[k])
                == before.parts()[k]
    }

    /// Whether an append of `record` that was refused since `before` cost no
    /// more than it was writing over: its sequence is not used; one that went
    /// into the head's block changed nothing outside its own bytes and did not
    /// touch its magic before the rest had landed, and one that turned the page
    /// changed nothing outside the two blocks it turns through.
    pub open spec fn spared(&self, before: &Self, record: Seq<u8>) -> bool {
        let needs = record.len() as int;
        let head = before.spec_head();
        let next = after(head.block as int, before.parts().len() as int);
        &&& self.spec_head().next_seq == head.next_seq
        &&& self.known_floor() == before.known_floor()
        &&& before.fits() ==> if head.at + needs <= before.block_bytes() {
            &&& self.spec_head() == head
            &&& self.kept_but(before, head.block as int, head.at as int, head.at + needs)
            &&& magic_last(
                before.parts()[head.block as int],
                self.parts()[head.block as int],
                head.at as int,
                record,
            )
        } else {
            self.kept_but_blocks(before, next, after(next, before.parts().len() as int))
        }
    }

    /// A program or an erase inside one block changes nothing outside it.
    proof fn lemma_kept_but(&self, before: &Self, block: int, from: int, to: int)
        requires
            self.same_part(before),
            before.fits(),
            0 <= block < before.blocks,
            0 <= from <= to <= before.len(),
            same_outside(
                self.flash.image(),
                before.flash.image(),
                before.base(block) + from,
                before.base(block) + to,
            ),
        ensures
            self.kept_but(before, block, from, to),
    {
        let len = before.len() as int;
        assert forall|k: int| 0 <= k < before.parts().len() && k != block implies (
        #[trigger] self.parts()[k]) == before.parts()[k] by {
            before.lemma_base(k);
            self.lemma_base(k);
            if k < block {
                lemma_apart(k, block, len);
            } else {
                lemma_apart(block, k, len);
            }
            assert(self.parts()[k] =~= before.parts()[k]);
        }
        before.lemma_base(block);
        self.lemma_base(block);
    }

    /// The ring's blocks are the part's bytes, cut into as many blocks from where
    /// the ring starts, and they fit when they lie on the part.
    pub proof fn lemma_parts(&self)
        ensures
            self.block_bytes() == block_len_of(self.under().erase_bytes()),
            self.parts().len() <= u32::MAX,
            self.parts() == parts_of(
                self.under().image(),
                self.spec_from() as int,
                self.block_bytes() as int,
                self.parts().len(),
            ),
            self.fits() == fits_on(
                self.under().image().len(),
                self.spec_from(),
                self.block_bytes(),
                self.parts().len() as u32,
            ),
            self.sound() == self.under().sound(),
    {
    }

    /// Block `k` lies on the part when the ring fits it.
    proof fn lemma_base(&self, k: int)
        requires
            self.fits(),
            0 <= k < self.blocks,
        ensures
            0 <= self.base(k),
            self.base(k) + self.len() <= self.from + self.blocks * self.len(),
            self.base(k) + self.len() <= self.flash.image().len(),
            self.base(k) + self.len() <= u32::MAX,
            self.parts()[k] == self.part(k),
            self.part(k).len() == self.len(),
    {
        lemma_apart(k, self.blocks as int, self.len() as int);
    }

    fn block_len(&self) -> (r: u32)
        ensures
            r == self.len(),
    {
        let size: usize = self.flash.erase_size();
        if size <= u32::MAX as usize {
            size as u32
        } else {
            u32::MAX
        }
    }

    fn address(&self, block: u32, at: u32) -> (r: Result<u32, RingError<N::Refusal>>)
        ensures
            match r {
                Ok(address) => address == self.base(block as int) + at,
                Err(why) => why is OutOfRange && self.base(block as int) + at > u32::MAX,
            },
    {
        let len: u32 = self.block_len();
        proof {
            assert(0 <= block as int * len as int <= u32::MAX as int * u32::MAX as int)
                by (nonlinear_arith)
                requires
                    0 <= block <= u32::MAX,
                    0 <= len <= u32::MAX,
            ;
        }
        let address: u64 = block as u64 * len as u64;
        if address > u32::MAX as u64 {
            return Err(RingError::OutOfRange);
        }
        let address: u64 = address + self.from as u64 + at as u64;
        if address > u32::MAX as u64 {
            return Err(RingError::OutOfRange);
        }
        Ok(address as u32)
    }

    /// The first magic at or after `from` that ends before `end`.
    fn hunt(&mut self, block: u32, from: u32, end: u32, scratch: &mut [u8]) -> (r: Result<
        Option<u32>,
        RingError<N::Refusal>,
    >)
        requires
            old(self).shaped(),
            block < old(self).blocks,
            end <= old(self).len(),
            old(scratch)@.len() >= SCRATCH,
        ensures
            final(self).untouched(old(self)),
            final(scratch)@.len() == old(scratch)@.len(),
            r matches Ok(Some(p)) ==> from <= p && p + 1 < end,
            old(self).fits() ==> match r {
                Ok(Some(p)) => next_magic(old(self).part(block as int), from as int, end as int)
                    == Some(p as int),
                Ok(None) => next_magic(
                    old(self).part(block as int),
                    from as int,
                    end as int,
                ) is None,
                Err(_) => true,
            },
            r matches Err(why) ==> old(self).blameless(why),
    {
        let ghost bytes = self.part(block as int);
        proof {
            if self.fits() {
                self.lemma_base(block as int);
            }
        }
        let base: u32 = self.address(block, 0)?;
        let mut at: u32 = from;
        // Each window overlaps the last by one byte, so a magic across the
        // seam is seen; each turn moves by at least one byte.
        while at < end && 1 < end - at
            invariant
                self.untouched(old(self)),
                old(self).shaped(),
                block < old(self).blocks,
                end <= old(self).len(),
                scratch@.len() == old(scratch)@.len(),
                scratch@.len() >= SCRATCH,
                bytes == old(self).part(block as int),
                base == old(self).base(block as int),
                from <= at,
                old(self).fits() ==> next_magic(bytes, from as int, end as int) == next_magic(
                    bytes,
                    at as int,
                    end as int,
                ),
                old(self).fits() ==> base + old(self).len() <= u32::MAX,
                old(self).fits() ==> base + old(self).len() <= old(self).flash.image().len(),
            decreases end - at,
        {
            let left: u32 = end - at;
            let take: u32 = if left < WINDOW as u32 {
                left
            } else {
                WINDOW as u32
            };
            match self.flash.read(base.saturating_add(at), scratch, 0, take as usize) {
                Ok(()) => {},
                Err(why) => return Err(RingError::Flash(why)),
            }
            proof {
                if old(self).fits() {
                    assert forall|i: int| 0 <= i < take implies scratch@[i] == bytes[at + i] by {}
                }
            }
            let mut i: u32 = 0;
            while 1 < take - i
                invariant
                    i < take <= left,
                    take <= WINDOW,
                    left == end - at,
                    from <= at,
                    scratch@.len() >= SCRATCH,
                    scratch@.len() == old(scratch)@.len(),
                    self.untouched(old(self)),
                    block < old(self).blocks,
                    end <= old(self).len(),
                    bytes == old(self).part(block as int),
                    old(self).fits() ==> forall|j: int|
                        0 <= j < take ==> #[trigger] scratch@[j] == bytes[at + j],
                    old(self).fits() ==> next_magic(bytes, from as int, end as int)
                        == next_magic(bytes, at + i, end as int),
                    old(self).fits() ==> old(self).part(block as int).len() == old(self).len(),
                decreases take - i,
            {
                if scratch[i as usize] == MAGIC_LOW && scratch[i as usize + 1] == MAGIC_HIGH {
                    proof {
                        if old(self).fits() {
                            assert(scratch@[i as int] == bytes[at + i]);
                            assert(scratch@[i + 1] == bytes[at + i + 1]);
                        }
                    }
                    return Ok(Some(at + i));
                }
                proof {
                    if old(self).fits() {
                        assert(scratch@[i as int] == bytes[at + i]);
                        assert(scratch@[i + 1] == bytes[at + i + 1]);
                    }
                }
                i = i + 1;
            }
            at = at + (take - 1);
        }
        Ok(None)
    }

    /// Whether every byte of the block is erased: the check before a block is
    /// appended into, which reads the whole of it once.
    fn is_erased(&mut self, block: u32, scratch: &mut [u8]) -> (r: Result<
        bool,
        RingError<N::Refusal>,
    >)
        requires
            old(self).shaped(),
            block < old(self).blocks,
            old(scratch)@.len() >= SCRATCH,
        ensures
            final(self).untouched(old(self)),
            final(scratch)@.len() == old(scratch)@.len(),
            old(self).fits() ==> (r matches Ok(is) ==> is == erased(old(self).part(block as int))),
            r matches Err(why) ==> old(self).blameless(why),
    {
        let ghost bytes = self.part(block as int);
        proof {
            if self.fits() {
                self.lemma_base(block as int);
            }
        }
        let base: u32 = self.address(block, 0)?;
        let len: u32 = self.block_len();
        let mut at: u32 = 0;
        while at < len
            invariant
                self.untouched(old(self)),
                old(self).shaped(),
                block < old(self).blocks,
                len == old(self).len(),
                at <= len,
                scratch@.len() == old(scratch)@.len(),
                scratch@.len() >= SCRATCH,
                bytes == old(self).part(block as int),
                base == old(self).base(block as int),
                old(self).fits() ==> forall|i: int| 0 <= i < at ==> bytes[i] == 0xFF,
                old(self).fits() ==> base + old(self).len() <= u32::MAX,
                old(self).fits() ==> base + old(self).len() <= old(self).flash.image().len(),
                old(self).fits() ==> bytes.len() == len,
            decreases len - at,
        {
            let left: u32 = len - at;
            let take: u32 = if left < WINDOW as u32 {
                left
            } else {
                WINDOW as u32
            };
            match self.flash.read(base.saturating_add(at), scratch, 0, take as usize) {
                Ok(()) => {},
                Err(why) => return Err(RingError::Flash(why)),
            }
            let ghost window = scratch@.subrange(0, take as int);
            proof {
                if old(self).fits() {
                    assert forall|i: int| 0 <= i < take implies window[i] == bytes[at + i] by {}
                }
            }
            if !all_are(&scratch[0..take as usize], 0xFF) {
                proof {
                    if old(self).fits() {
                        let i = choose|i: int| 0 <= i < window.len() && window[i] != 0xFF;
                        assert(bytes[at + i] != 0xFF);
                    }
                }
                return Ok(false);
            }
            proof {
                if old(self).fits() {
                    assert forall|i: int| 0 <= i < at + take implies bytes[i] == 0xFF by {
                        if i >= at {
                            assert(window[i - at] == bytes[i]);
                        }
                    }
                }
            }
            at = at + take;
        }
        Ok(true)
    }

    /// Walk the records of one block from `at`, verifying each, hunting
    /// forward past one that does not hold, and stopping at the first that
    /// does, at the erased tail or at residue nothing readable follows. The
    /// hunt for a record's start goes no further than `reach`; a record that
    /// starts inside it is read whole, and is left at the front of the
    /// scratch.
    fn scan_block(&mut self, block: u32, from: u32, reach: u32, scratch: &mut [u8]) -> (r: Result<
        Walked,
        RingError<N::Refusal>,
    >)
        requires
            old(self).shaped(),
            block < old(self).blocks,
            reach <= old(self).len(),
            old(scratch)@.len() >= SCRATCH,
        ensures
            final(self).untouched(old(self)),
            final(scratch)@.len() == old(scratch)@.len(),
            r matches Ok(w) ==> (w.halt matches Halt::Record { end } ==> from < end
                <= old(self).len() && verified(final(scratch)@) is Some),
            r matches Ok(w) ==> w.failed <= reach - from || w.failed == 0,
            r matches Ok(w) ==> (w.halt matches Halt::Record { end } ==> w.failed <= end - from),
            old(self).fits() ==> (r matches Ok(w) ==> w.is(
                crate::ring_model::walk(old(self).part(block as int), from as int, reach as int),
                final(scratch)@,
            )),
            r matches Err(why) ==> old(self).blameless(why),
    {
        let ghost bytes = self.part(block as int);
        let ghost model = crate::ring_model::walk(bytes, from as int, reach as int);
        proof {
            if self.fits() {
                self.lemma_base(block as int);
            }
        }
        let base: u32 = self.address(block, 0)?;
        let len: u32 = self.block_len();
        let mut at: u32 = from;
        let mut failed: u32 = 0;
        // Bounded by the reach: every turn either stops or moves the hunt
        // forward by at least a byte.
        while at < reach
            invariant
                self.untouched(old(self)),
                old(self).shaped(),
                block < old(self).blocks,
                len == old(self).len(),
                reach <= len,
                from <= at,
                failed <= at - from,
                scratch@.len() == old(scratch)@.len(),
                scratch@.len() >= SCRATCH,
                bytes == old(self).part(block as int),
                base == old(self).base(block as int),
                model == crate::ring_model::walk(bytes, from as int, reach as int),
                at < reach || failed == 0,
                old(self).fits() ==> ({
                    let on = crate::ring_model::walk(bytes, at as int, reach as int);
                    &&& model.failed == failed + on.failed
                    &&& model.stop == on.stop
                }),
                old(self).fits() ==> base + len <= u32::MAX,
                old(self).fits() ==> base + len <= old(self).flash.image().len(),
                old(self).fits() ==> bytes.len() == len,
            decreases reach - at,
        {
            let ghost rest = bytes.skip(at as int);
            let remaining: u32 = len - at;
            let head_len: u32 = if remaining < HEADER as u32 {
                remaining
            } else {
                HEADER as u32
            };
            match self.flash.read(base.saturating_add(at), scratch, 0, head_len as usize) {
                Ok(()) => {},
                Err(why) => return Err(RingError::Flash(why)),
            }
            proof {
                if old(self).fits() {
                    assert forall|i: int| 0 <= i < head_len implies scratch@[i] == rest[i] by {}
                }
            }
            let header = if head_len == HEADER as u32 {
                Header::parse(scratch)
            } else {
                None
            };
            proof {
                if old(self).fits() && head_len == HEADER {
                    lemma_same_header(scratch@, rest);
                }
                assert(old(self).fits() ==> header == Header::spec_parse(rest));
            }
            let candidate = match header {
                Some(header) => match header.record_len() {
                    Some(record_len) => if record_len as u32 <= remaining {
                        Some(record_len)
                    } else {
                        None
                    },
                    None => None,
                },
                None => None,
            };
            proof {
                assert(old(self).fits() ==> candidate == claimed_len(rest));
            }
            if let Some(record_len) = candidate {
                let ghost head = scratch@;
                match self.flash.read(
                    base.saturating_add(at).saturating_add(HEADER as u32),
                    scratch,
                    HEADER,
                    record_len - HEADER,
                ) {
                    Ok(()) => {},
                    Err(why) => return Err(RingError::Flash(why)),
                }
                proof {
                    lemma_same_header(head, scratch@);
                    assert(claimed_len(scratch@) == Some(record_len));
                    if old(self).fits() {
                        assert(scratch@.subrange(0, record_len as int) =~= rest.subrange(
                            0,
                            record_len as int,
                        ));
                        crate::record::law_only_the_records_own_bytes_matter(rest, scratch@);
                    }
                }
                if crate::record::verify(scratch).is_some() {
                    return Ok(
                        Walked { failed, halt: Halt::Record { end: at + record_len as u32 } },
                    );
                }
            } else if all_are(&scratch[0..head_len as usize], 0xFF) {
                // The tail: nothing this log wrote lies past an erased header.
                proof {
                    if old(self).fits() {
                        let head = scratch@.subrange(0, head_len as int);
                        assert(erased_head(rest)) by {
                            assert forall|i: int|
                                0 <= i < HEADER && i < rest.len() implies rest[i] == 0xFF by {
                                assert(head[i] == rest[i]);
                            }
                        }
                    }
                }
                return Ok(Walked { failed, halt: Halt::Tail });
            }
            proof {
                if old(self).fits() {
                    if candidate is Some {
                        assert(rest[0] == MAGIC_LOW);
                        assert(!erased_head(rest));
                    } else {
                        let head = scratch@.subrange(0, head_len as int);
                        let i = choose|i: int| 0 <= i < head.len() && head[i] != 0xFF;
                        assert(head[i] == rest[i]);
                        assert(!erased_head(rest));
                    }
                    assert(verified(rest) is None);
                }
            }
            if header.is_some() {
                // A magic whose record nobody can read.
                failed = failed + 1;
            }
            // Always from the next byte: a magic in the last bytes of the
            // block, too short to be a header, would otherwise be found at
            // `at` again and again.
            match self.hunt(block, at + 1, reach, scratch)? {
                Some(next) => {
                    at = next;
                },
                None => {
                    return Ok(Walked { failed, halt: Halt::Residue });
                },
            }
        }
        Ok(Walked { failed, halt: Halt::Reach })
    }

    /// What a block's first bytes say, from one probe's reach and no more.
    fn probe(&mut self, block: u32, scratch: &mut [u8]) -> (r: Result<
        Probe,
        RingError<N::Refusal>,
    >)
        requires
            old(self).shaped(),
            block < old(self).blocks,
            old(scratch)@.len() >= SCRATCH,
        ensures
            final(self).untouched(old(self)),
            final(scratch)@.len() == old(scratch)@.len(),
            r matches Ok(Probe::Records { first }) ==> first >= 1,
            old(self).fits() ==> (r matches Ok(found) ==> found == crate::ring_model::probe(
                old(self).parts()[block as int],
            )),
            r matches Err(why) ==> old(self).blameless(why),
    {
        proof {
            if self.fits() {
                self.lemma_base(block as int);
            }
        }
        let len: u32 = self.block_len();
        let reach: u32 = if len < PROBE_REACH as u32 {
            len
        } else {
            PROBE_REACH as u32
        };
        let walked = self.scan_block(block, 0, reach, scratch)?;
        match walked.halt {
            Halt::Record { .. } => {
                match crate::record::verify(scratch) {
                    Some(found) => Ok(Probe::Records { first: found.seq }),
                    None => Ok(Probe::Closed),
                }
            },
            Halt::Residue => Ok(Probe::Closed),
            Halt::Tail => Ok(Probe::Erased),
            Halt::Reach => Ok(Probe::Erased),
        }
    }

    /// Scan a whole block, counting what it holds.
    fn scan_whole(&mut self, block: u32, scratch: &mut [u8]) -> (r: Result<
        Scanned,
        RingError<N::Refusal>,
    >)
        requires
            old(self).shaped(),
            block < old(self).blocks,
            old(scratch)@.len() >= SCRATCH,
        ensures
            final(self).same_part(old(self)),
            final(self).flash.image() == old(self).flash.image(),
            final(self).head == old(self).head,
            final(self).floor == old(self).floor,
            final(scratch)@.len() == old(scratch)@.len(),
            r matches Ok(s) ==> s.tail <= old(self).len(),
            r matches Ok(s) ==> final(self).damage == (Damage {
                failed_crc: if old(self).damage.failed_crc + s.failed_crc <= u32::MAX {
                    (old(self).damage.failed_crc + s.failed_crc) as u32
                } else {
                    u32::MAX
                },
                closed: if s.closed && old(self).damage.closed < u32::MAX {
                    (old(self).damage.closed + 1) as u32
                } else {
                    old(self).damage.closed
                },
            }),
            r is Err ==> final(self).damage == old(self).damage,
            old(self).fits() ==> (r matches Ok(s) ==> {
                let model = scan(old(self).parts()[block as int]);
                &&& s.tail == model.tail
                &&& s.closed == model.closed
                &&& s.failed_crc == model.failed
                &&& s.last == (if model.entries.len() > 0 {
                    Some(model.entries.last().seq)
                } else {
                    None
                })
            }),
            r matches Err(why) ==> old(self).blameless(why),
    {
        let len: u32 = self.block_len();
        let ghost bytes = self.parts()[block as int];
        proof {
            if self.fits() {
                self.lemma_base(block as int);
            }
        }
        let mut scanned = Scanned { last: None, tail: 0, closed: false, failed_crc: 0 };
        let mut at: u32 = 0;
        let ghost mut entries: Seq<Entry> = Seq::empty();
        loop
            invariant_except_break
                self.untouched(old(self)),
                old(self).shaped(),
                block < old(self).blocks,
                len == old(self).len(),
                at <= len,
                scanned.tail == at,
                !scanned.closed,
                scanned.failed_crc <= at,
                scratch@.len() == old(scratch)@.len(),
                scratch@.len() >= SCRATCH,
                bytes == old(self).parts()[block as int],
                old(self).fits() ==> bytes == old(self).part(block as int) && bytes.len() == len,
                scanned.last == (if entries.len() > 0 {
                    Some(entries.last().seq)
                } else {
                    None
                }),
                old(self).fits() ==> ({
                    let model = scan(bytes);
                    let on = scan_from(bytes, at as int, at as int, len as int);
                    &&& model.entries =~= entries + on.entries
                    &&& model.tail == on.tail
                    &&& model.closed == on.closed
                    &&& model.failed == scanned.failed_crc + on.failed
                }),
            ensures
                self.untouched(old(self)),
                scanned.tail <= len,
                scratch@.len() == old(scratch)@.len(),
                old(self).fits() ==> ({
                    let model = scan(bytes);
                    &&& scanned.tail == model.tail
                    &&& scanned.closed == model.closed
                    &&& scanned.failed_crc == model.failed
                    &&& scanned.last == (if model.entries.len() > 0 {
                        Some(model.entries.last().seq)
                    } else {
                        None
                    })
                }),
            decreases len - at,
        {
            let ghost before = at;
            let walked = self.scan_block(block, at, len, scratch)?;
            scanned.failed_crc = scanned.failed_crc + walked.failed;
            match walked.halt {
                Halt::Record { end } => {
                    let found = match crate::record::verify(scratch) {
                        Some(found) => found,
                        None => {
                            break ;
                        },
                    };
                    scanned.last = Some(found.seq);
                    proof {
                        let on = scan_from(bytes, before as int, before as int, len as int);
                        let next = scan_from(bytes, end as int, end as int, len as int);
                        entries = entries.push(found@);
                        if old(self).fits() {
                            let walk = crate::ring_model::walk(bytes, before as int, len as int);
                            assert(walk.stop is Record);
                            assert(on.entries =~= seq![found@] + next.entries);
                        }
                    }
                    at = end;
                    scanned.tail = at;
                },
                Halt::Residue => {
                    scanned.closed = true;
                    break ;
                },
                Halt::Tail => {
                    break ;
                },
                Halt::Reach => {
                    break ;
                },
            }
        }
        self.damage.failed_crc = self.damage.failed_crc.saturating_add(scanned.failed_crc);
        if scanned.closed {
            self.damage.closed = self.damage.closed.saturating_add(1);
        }
        Ok(scanned)
    }

    fn next_block(&self, block: u32) -> (r: u32)
        requires
            self.shaped(),
            block < self.blocks,
        ensures
            r < self.blocks,
            r == after(block as int, self.blocks as int),
    {
        if block >= self.blocks - 1 {
            0
        } else {
            block + 1
        }
    }

    /// The k-th block of the run.
    fn in_run(&self, first_block: u32, k: u32) -> (r: u32)
        requires
            self.shaped(),
            first_block < self.blocks,
            k < self.blocks,
        ensures
            r < self.blocks,
            r == ahead(first_block as int, k as int, self.blocks as int),
    {
        let sum: u64 = first_block as u64 + k as u64;
        (sum % self.blocks as u64) as u32
    }

    fn erase(&mut self, block: u32) -> (r: Result<(), RingError<N::Refusal>>)
        requires
            old(self).shaped(),
            block < old(self).blocks,
        ensures
            final(self).same_part(old(self)),
            final(self).head == old(self).head,
            final(self).damage == old(self).damage,
            final(self).floor == old(self).floor,
            old(self).fits() ==> (r is Ok ==> final(self).parts() == cleared(
                old(self).parts(),
                block as int,
            )),
            old(self).fits() ==> final(self).kept_but_blocks(
                old(self),
                block as int,
                block as int,
            ),
            r matches Err(why) ==> old(self).blameless(why),
    {
        proof {
            if self.fits() {
                self.lemma_base(block as int);
            }
        }
        let len: u32 = self.block_len();
        let from: u32 = self.address(block, 0)?;
        let to: u32 = match from.checked_add(len) {
            Some(to) => to,
            None => return Err(RingError::OutOfRange),
        };
        let done = self.flash.erase(from, to);
        proof {
            if old(self).fits() {
                self.lemma_kept_but(old(self), block as int, 0, len as int);
            }
        }
        match done {
            Ok(()) => {},
            Err(why) => return Err(RingError::Flash(why)),
        }
        proof {
            if old(self).fits() {
                assert forall|k: int| 0 <= k < self.blocks implies self.parts()[k] =~= cleared(
                    old(self).parts(),
                    block as int,
                )[k] by {
                    old(self).lemma_base(k);
                    self.lemma_base(k);
                    if k < block {
                        lemma_apart(k, block as int, len as int);
                    } else if block < k {
                        lemma_apart(block as int, k, len as int);
                    }
                }
                assert(self.parts() =~= cleared(old(self).parts(), block as int));
            }
        }
        Ok(())
    }

    /// Erase `block` unless every byte of it already is: the whole block read,
    /// because a probe reads one record's length and no further.
    fn ensure_erased(&mut self, block: u32, scratch: &mut [u8]) -> (r: Result<
        (),
        RingError<N::Refusal>,
    >)
        requires
            old(self).shaped(),
            block < old(self).blocks,
            old(scratch)@.len() >= SCRATCH,
        ensures
            final(self).same_part(old(self)),
            final(self).head == old(self).head,
            final(self).damage == old(self).damage,
            final(self).floor == old(self).floor,
            final(scratch)@.len() == old(scratch)@.len(),
            old(self).fits() ==> (r is Ok ==> final(self).parts() == cleared(
                old(self).parts(),
                block as int,
            )),
            old(self).fits() ==> final(self).kept_but_blocks(
                old(self),
                block as int,
                block as int,
            ),
            r matches Err(why) ==> old(self).blameless(why),
    {
        if !self.is_erased(block, scratch)? {
            self.erase(block)?;
        } else {
            proof {
                if old(self).fits() {
                    old(self).lemma_base(block as int);
                    let bytes = old(self).part(block as int);
                    assert(bytes =~= blank(bytes.len()));
                    assert(self.parts() =~= old(self).parts());
                    assert(cleared(old(self).parts(), block as int) =~= old(self).parts());
                }
            }
        }
        Ok(())
    }

    /// Erase the block after the head unless it already is.
    fn erase_ahead(&mut self, scratch: &mut [u8]) -> (r: Result<(), RingError<N::Refusal>>)
        requires
            old(self).wf(),
            old(scratch)@.len() >= SCRATCH,
        ensures
            final(self).same_part(old(self)),
            final(self).head == old(self).head,
            final(self).damage == old(self).damage,
            final(self).floor == old(self).floor,
            final(scratch)@.len() == old(scratch)@.len(),
            old(self).fits() ==> (r is Ok ==> final(self).parts() == cleared(
                old(self).parts(),
                after(old(self).head.block as int, old(self).blocks as int),
            )),
            old(self).fits() ==> final(self).kept_but_blocks(
                old(self),
                after(old(self).head.block as int, old(self).blocks as int),
                after(old(self).head.block as int, old(self).blocks as int),
            ),
            r matches Err(why) ==> old(self).blameless(why),
    {
        let next: u32 = self.next_block(self.head.block);
        self.ensure_erased(next, scratch)
    }

    /// The first sequence in the first block holding records at or after
    /// `block`, stopping at an erased one.
    fn nearest_records(&mut self, block: u32, scratch: &mut [u8]) -> (r: Result<
        Option<u64>,
        RingError<N::Refusal>,
    >)
        requires
            old(self).shaped(),
            old(scratch)@.len() >= SCRATCH,
        ensures
            final(self).untouched(old(self)),
            final(scratch)@.len() == old(scratch)@.len(),
            old(self).fits() ==> (r matches Ok(found) ==> found == nearest(
                old(self).parts(),
                block as int,
            )),
            r matches Err(why) ==> old(self).blameless(why),
    {
        let mut candidate: u32 = block;
        while candidate < self.blocks
            invariant
                self.untouched(old(self)),
                old(self).shaped(),
                scratch@.len() == old(scratch)@.len(),
                scratch@.len() >= SCRATCH,
                nearest(old(self).parts(), block as int) == nearest(
                    old(self).parts(),
                    candidate as int,
                ) || !old(self).fits(),
            decreases self.blocks - candidate,
        {
            match self.probe(candidate, scratch)? {
                Probe::Records { first } => return Ok(Some(first)),
                Probe::Erased => return Ok(None),
                Probe::Closed => {},
            }
            candidate = candidate + 1;
        }
        Ok(None)
    }

    /// The first sequence held: the first record in the first block holding
    /// any from two past the head on. None when no block does: on a ring of two
    /// blocks a turned page leaves no other.
    fn find_the_oldest(&mut self, scratch: &mut [u8]) -> (r: Result<
        Option<u64>,
        RingError<N::Refusal>,
    >)
        requires
            old(self).wf(),
            old(scratch)@.len() >= SCRATCH,
        ensures
            final(self).untouched(old(self)),
            final(scratch)@.len() == old(scratch)@.len(),
            old(self).fits() ==> (r matches Ok(found) ==> found == oldest(
                old(self).parts(),
                old(self).head.block as int,
            )),
            r matches Err(why) ==> old(self).blameless(why),
    {
        let (block, _) = self.run(scratch)?;
        match self.probe(block, scratch)? {
            Probe::Records { first } => Ok(Some(first)),
            _ => Ok(None),
        }
    }

    /// The first block holding records, and its first sequence.
    fn find_the_anchor(&mut self, scratch: &mut [u8]) -> (r: Result<
        Option<(u32, u64)>,
        RingError<N::Refusal>,
    >)
        requires
            old(self).shaped(),
            old(scratch)@.len() >= SCRATCH,
        ensures
            final(self).untouched(old(self)),
            final(scratch)@.len() == old(scratch)@.len(),
            r matches Ok(Some(found)) ==> found.0 < old(self).blocks && found.1 >= 1,
            old(self).fits() ==> match r {
                Ok(Some(found)) => {
                    &&& anchor(old(self).parts(), 0) == Some(found.0 as int)
                    &&& crate::ring_model::probe(old(self).parts()[found.0 as int])
                        == (Probe::Records { first: found.1 })
                },
                Ok(None) => anchor(old(self).parts(), 0) is None,
                Err(_) => true,
            },
            r matches Err(why) ==> old(self).blameless(why),
    {
        let mut block: u32 = 0;
        while block < self.blocks
            invariant
                self.untouched(old(self)),
                old(self).shaped(),
                scratch@.len() == old(scratch)@.len(),
                scratch@.len() >= SCRATCH,
                old(self).fits() ==> anchor(old(self).parts(), 0) == anchor(
                    old(self).parts(),
                    block as int,
                ),
            decreases self.blocks - block,
        {
            if let Probe::Records { first } = self.probe(block, scratch)? {
                return Ok(Some((block, first)));
            }
            block = block + 1;
        }
        Ok(None)
    }

    /// The first block that probes erased, or the first of all.
    fn find_an_erased(&mut self, scratch: &mut [u8]) -> (r: Result<u32, RingError<N::Refusal>>)
        requires
            old(self).shaped(),
            old(scratch)@.len() >= SCRATCH,
        ensures
            final(self).untouched(old(self)),
            final(scratch)@.len() == old(scratch)@.len(),
            r matches Ok(block) ==> block < old(self).blocks,
            old(self).fits() ==> (r matches Ok(block) ==> block == (match first_erased(
                old(self).parts(),
                0,
            ) {
                Some(block) => block,
                None => 0,
            })),
            r matches Err(why) ==> old(self).blameless(why),
    {
        let mut block: u32 = 0;
        while block < self.blocks
            invariant
                self.untouched(old(self)),
                old(self).shaped(),
                scratch@.len() == old(scratch)@.len(),
                scratch@.len() >= SCRATCH,
                old(self).fits() ==> first_erased(old(self).parts(), 0) == first_erased(
                    old(self).parts(),
                    block as int,
                ),
            decreases self.blocks - block,
        {
            if let Probe::Erased = self.probe(block, scratch)? {
                return Ok(block);
            }
            block = block + 1;
        }
        Ok(0)
    }

    /// The last block whose nearest records are no older than `first`: blocks
    /// before the head carry newer sequences than the anchor, blocks after it
    /// carry older ones or nothing.
    fn find_the_newest(&mut self, anchored: u32, first: u64, scratch: &mut [u8]) -> (r: Result<
        u32,
        RingError<N::Refusal>,
    >)
        requires
            old(self).shaped(),
            anchored < old(self).blocks,
            old(scratch)@.len() >= SCRATCH,
        ensures
            final(self).untouched(old(self)),
            final(scratch)@.len() == old(scratch)@.len(),
            r matches Ok(block) ==> anchored <= block < old(self).blocks,
            old(self).fits() ==> (r matches Ok(block) ==> block == bisect(
                old(self).parts(),
                first,
                anchored as int,
                old(self).blocks as int,
            )),
            r matches Err(why) ==> old(self).blameless(why),
    {
        let mut lo: u32 = anchored;
        let mut hi: u32 = self.blocks;
        while hi - lo > 1
            invariant
                self.untouched(old(self)),
                old(self).shaped(),
                anchored <= lo < hi <= old(self).blocks,
                scratch@.len() == old(scratch)@.len(),
                scratch@.len() >= SCRATCH,
                old(self).fits() ==> bisect(
                    old(self).parts(),
                    first,
                    anchored as int,
                    old(self).blocks as int,
                ) == bisect(old(self).parts(), first, lo as int, hi as int),
            decreases hi - lo,
        {
            let mid: u32 = lo + (hi - lo) / 2;
            let newer = match self.nearest_records(mid, scratch)? {
                Some(seq) => seq >= first,
                None => false,
            };
            if newer {
                lo = mid;
            } else {
                hi = mid;
            }
        }
        Ok(lo)
    }

    /// The first block past `block` that is not closed.
    fn find_past_closed(&mut self, block: u32, scratch: &mut [u8]) -> (r: Result<
        u32,
        RingError<N::Refusal>,
    >)
        requires
            old(self).shaped(),
            block < old(self).blocks,
            old(scratch)@.len() >= SCRATCH,
        ensures
            final(self).untouched(old(self)),
            final(scratch)@.len() == old(scratch)@.len(),
            r matches Ok(found) ==> found < old(self).blocks,
            old(self).fits() ==> (r matches Ok(found) ==> found == past_closed(
                old(self).parts(),
                block as int,
                old(self).blocks as nat,
            )),
            r matches Err(why) ==> old(self).blameless(why),
    {
        let mut head: u32 = block;
        let mut turns: u32 = self.blocks;
        while turns > 0
            invariant
                self.untouched(old(self)),
                old(self).shaped(),
                head < old(self).blocks,
                turns <= old(self).blocks,
                scratch@.len() == old(scratch)@.len(),
                scratch@.len() >= SCRATCH,
                old(self).fits() ==> past_closed(
                    old(self).parts(),
                    block as int,
                    old(self).blocks as nat,
                ) == past_closed(old(self).parts(), head as int, turns as nat),
            decreases turns,
        {
            head = self.next_block(head);
            match self.probe(head, scratch)? {
                Probe::Closed => {},
                Probe::Erased => return Ok(head),
                // The erase ahead never landed: this is the oldest data, and
                // it goes now.
                Probe::Records { .. } => return Ok(head),
            }
            turns = turns - 1;
        }
        Ok(head)
    }

    /// Where a log with nothing readable starts over: in the first erased
    /// block, or in block zero when every block was closed.
    fn start_over(&mut self, scratch: &mut [u8]) -> (r: Result<(), RingError<N::Refusal>>)
        requires
            old(self).shaped(),
            old(scratch)@.len() >= SCRATCH,
        ensures
            final(self).same_part(old(self)),
            final(self).damage == old(self).damage,
            final(self).floor == old(self).floor,
            final(scratch)@.len() == old(scratch)@.len(),
            old(self).wf() || r is Ok ==> final(self).wf(),
            old(self).fits() ==> (r is Ok ==> {
                let found = fresh_start(old(self).parts());
                &&& final(self).parts() == found.blocks
                &&& final(self).head == found.head
            }),
            r matches Err(why) ==> old(self).blameless(why),
    {
        let block: u32 = self.find_an_erased(scratch)?;
        // A probe reaches one record's length and no further, so it cannot
        // promise the rest of the block: it is read whole before the head
        // goes into it.
        self.ensure_erased(block, scratch)?;
        self.head = Head { block, at: 0, next_seq: 1, oldest: None };
        self.erase_ahead(scratch)
    }

    /// The boot's question: where does the log continue?
    fn find_the_head(&mut self, scratch: &mut [u8]) -> (r: Result<(), RingError<N::Refusal>>)
        requires
            old(self).shaped(),
            old(scratch)@.len() >= SCRATCH,
        ensures
            final(self).same_part(old(self)),
            final(self).floor == old(self).floor,
            final(scratch)@.len() == old(scratch)@.len(),
            old(self).wf() || r is Ok ==> final(self).wf(),
            old(self).fits() ==> (r is Ok ==> {
                let found = finding(old(self).parts());
                &&& final(self).parts() == found.blocks
                &&& final(self).head == found.head
                &&& final(self).damage == counted(old(self).damage, found)
            }),
            r matches Err(why) ==> old(self).blameless(why),
    {
        let (anchored, first) = match self.find_the_anchor(scratch)? {
            Some(found) => found,
            None => {
                return self.start_over(scratch);
            },
        };
        let newest: u32 = self.find_the_newest(anchored, first, scratch)?;
        let scanned = self.scan_whole(newest, scratch)?;
        let mut block: u32 = newest;
        let mut at: u32 = scanned.tail;
        if scanned.closed {
            // The log continues in the next block, past any that a torn first
            // write closed as well, read whole before the head goes into it.
            at = 0;
            block = self.find_past_closed(newest, scratch)?;
            self.ensure_erased(block, scratch)?;
        }
        let mut next_seq: u64 = match scanned.last {
            Some(last) => last.saturating_add(1),
            None => 1,
        };
        if next_seq == 1 {
            next_seq = first.saturating_add(1);
        }
        self.head = Head { block, at, next_seq, oldest: None };
        self.erase_ahead(scratch)?;
        self.head.oldest = self.find_the_oldest(scratch)?;
        Ok(())
    }

    /// Open the ring spanning `blocks` erase blocks from address `from`,
    /// finding where the log continues.
    pub fn open(flash: N, from: u32, blocks: u32, scratch: &mut [u8]) -> (r: Result<
        Self,
        RingError<N::Refusal>,
    >)
        ensures
            final(scratch)@.len() == old(scratch)@.len(),
            match unopened(flash, blocks, old(scratch)@.len()) {
                Some(why) => r == Err::<Self, RingError<N::Refusal>>(why),
                None => {
                    let len = block_len_of(flash.erase_bytes());
                    let fits = fits_on(flash.image().len(), from, len, blocks);
                    let found = finding(
                        parts_of(flash.image(), from as int, len as int, blocks as nat),
                    );
                    match r {
                        Ok(ring) => {
                            &&& ring.wf()
                            &&& ring.fits() == fits
                            &&& ring.sound() == flash.sound()
                            &&& ring.spec_from() == from
                            &&& ring.block_bytes() == len
                            &&& ring.parts().len() == blocks
                            &&& ring.under().image().len() == flash.image().len()
                            &&& ring.under().erase_bytes() == flash.erase_bytes()
                            &&& ring.under().write_bytes() == flash.write_bytes()
                            &&& ring.under().sound() == flash.sound()
                            &&& ring.known_floor() is None
                            &&& fits ==> ring.parts() == found.blocks
                            &&& fits ==> ring.spec_head() == found.head
                            &&& fits ==> ring.spec_damage() == counted(
                                Damage { failed_crc: 0, closed: 0 },
                                found,
                            )
                        },
                        Err(RingError::Flash(_)) => !(flash.sound() && fits),
                        Err(RingError::OutOfRange) => !fits,
                        Err(_) => false,
                    }
                },
            },
    {
        let write: usize = flash.write_size();
        if write != 1 {
            return Err(RingError::WriteSizeNotOne(write));
        }
        let size: usize = flash.erase_size();
        if size < MAX_RECORD {
            return Err(RingError::BlockTooSmall(size));
        }
        if blocks < 2 {
            return Err(RingError::TooFewBlocks(blocks));
        }
        if scratch.len() < SCRATCH {
            return Err(RingError::ScratchTooSmall(scratch.len()));
        }
        let mut ring = Ring {
            flash,
            from,
            blocks,
            head: Head { block: 0, at: 0, next_seq: 1, oldest: None },
            damage: Damage { failed_crc: 0, closed: 0 },
            floor: Floor::Unknown,
        };
        ring.find_the_head(scratch)?;
        Ok(ring)
    }

    /// Where the next record goes.
    pub fn head(&self) -> (r: Head)
        ensures
            r == self.spec_head(),
    {
        self.head
    }

    /// The sequence the next record gets, which is what its payload must name.
    pub fn next_seq(&self) -> (r: u64)
        ensures
            r == self.spec_head().next_seq,
    {
        self.head.next_seq
    }

    /// What the boot's scan stepped over.
    pub fn damage(&self) -> (r: Damage)
        ensures
            r == self.spec_damage(),
    {
        self.damage
    }

    /// The bytes an append of `payload` costs, for the budget.
    pub fn cost(payload: usize) -> (r: usize)
        ensures
            r == (if OVERHEAD + payload <= usize::MAX {
                OVERHEAD + payload
            } else {
                usize::MAX as int
            }),
    {
        framed_len(payload)
    }

    /// Hand the part back.
    pub fn release(self) -> (r: N)
        ensures
            r == self.under(),
    {
        self.flash
    }

    /// The part's bytes at `at`, as they are. A read moves nothing.
    pub fn read_raw(&mut self, at: u32, into: &mut [u8]) -> (r: Result<(), RingError<N::Refusal>>)
        requires
            old(self).wf(),
        ensures
            final(self).wf(),
            final(self).untouched(old(self)),
            final(into)@.len() == old(into)@.len(),
            at + old(into)@.len() > old(self).under().image().len() ==> r matches Err(
                RingError::OutOfRange,
            ),
            at + old(into)@.len() <= old(self).under().image().len() ==> match r {
                Ok(()) => final(into)@ == old(self).under().image().subrange(
                    at as int,
                    at + old(into)@.len(),
                ),
                Err(RingError::Flash(_)) => !old(self).sound(),
                Err(_) => false,
            },
    {
        let len: usize = into.len();
        let room: usize = self.flash.capacity();
        if at as usize > room || len > room - at as usize {
            return Err(RingError::OutOfRange);
        }
        match self.flash.read(at, into, 0, len) {
            Ok(()) => {
                proof {
                    assert(into@ =~= old(self).flash.image().subrange(at as int, at + len));
                }
                Ok(())
            },
            Err(why) => Err(RingError::Flash(why)),
        }
    }

    /// Erase one erase block of the part outside the ring, counted from the
    /// part's start. A block of the ring's own is refused: an erase anywhere
    /// but the oldest leaves a hole the head search reads as the end of the
    /// log, and the next record reuses a sequence.
    pub fn erase_block(&mut self, block: u32) -> (r: Result<(), RingError<N::Refusal>>)
        requires
            old(self).wf(),
        ensures
            final(self).wf(),
            final(self).same_part(old(self)),
            final(self).spec_head() == old(self).spec_head(),
            final(self).spec_damage() == old(self).spec_damage(),
            final(self).known_floor() == old(self).known_floor(),
            ({
                let len = old(self).block_bytes();
                let first = old(self).spec_from() as int / len as int;
                let from = block * len;
                let to = from + len;
                if first <= block < first + old(self).parts().len() {
                    &&& r == Err::<(), RingError<N::Refusal>>(RingError::InsideTheRing(block))
                    &&& final(self).under() == old(self).under()
                } else if to > u32::MAX || to > old(self).under().image().len() {
                    &&& r matches Err(RingError::OutOfRange)
                    &&& final(self).under() == old(self).under()
                } else {
                    match r {
                        Ok(()) => final(self).under().image() == wiped(
                            old(self).under().image(),
                            from,
                            to,
                        ),
                        Err(RingError::Flash(_)) => !old(self).sound(),
                        Err(_) => false,
                    }
                }
            }),
    {
        let len: u32 = self.block_len();
        let first: u32 = self.from / len;
        if block >= first && block - first < self.blocks {
            return Err(RingError::InsideTheRing(block));
        }
        proof {
            assert(0 <= block as int * len as int <= u32::MAX as int * u32::MAX as int)
                by (nonlinear_arith)
                requires
                    0 <= block <= u32::MAX,
                    0 <= len <= u32::MAX,
            ;
        }
        let from: u64 = block as u64 * len as u64;
        let to: u64 = from + len as u64;
        if to > u32::MAX as u64 || to as usize > self.flash.capacity() {
            return Err(RingError::OutOfRange);
        }
        match self.flash.erase(from as u32, to as u32) {
            Ok(()) => Ok(()),
            Err(why) => Err(RingError::Flash(why)),
        }
    }

    /// The blocks the log occupies, in ring order: the first, and how many.
    fn run(&mut self, scratch: &mut [u8]) -> (r: Result<(u32, u32), RingError<N::Refusal>>)
        requires
            old(self).wf(),
            old(scratch)@.len() >= SCRATCH,
        ensures
            final(self).untouched(old(self)),
            final(scratch)@.len() == old(scratch)@.len(),
            r matches Ok(run) ==> run.0 < old(self).blocks && 1 <= run.1 <= old(self).blocks,
            old(self).fits() ==> (r matches Ok(run) ==> {
                &&& run.0 == run_first(old(self).parts(), old(self).head.block as int)
                &&& run.1 == run_len(old(self).parts(), old(self).head.block as int)
            }),
            r matches Err(why) ==> old(self).blameless(why),
    {
        // Post-wrap the run starts two past the head, after the erased block;
        // pre-wrap it starts at zero. Either way the first block of the run
        // is the first holding records from two past the head.
        let mut block: u32 = self.next_block(self.next_block(self.head.block));
        let mut turns: u32 = self.blocks;
        while turns > 0
            invariant_except_break
                old(self).fits() ==> run_first(old(self).parts(), old(self).head.block as int)
                    == run_start(old(self).parts(), block as int, turns as nat),
            invariant
                self.untouched(old(self)),
                old(self).shaped(),
                block < old(self).blocks,
                turns <= old(self).blocks,
                scratch@.len() == old(scratch)@.len(),
                scratch@.len() >= SCRATCH,
            ensures
                old(self).fits() ==> run_first(old(self).parts(), old(self).head.block as int)
                    == block,
            decreases turns,
        {
            match self.probe(block, scratch)? {
                Probe::Records { .. } => {
                    break ;
                },
                Probe::Erased => {
                    block = self.next_block(block);
                },
                Probe::Closed => {
                    block = self.next_block(block);
                },
            }
            turns = turns - 1;
        }
        // The distance in the ring, not modulo two to the thirty-two.
        let count: u64 = self.blocks as u64;
        let apart: u64 = (self.head.block as u64 + count - block as u64) % count;
        Ok((block, apart as u32 + 1))
    }

    /// The first sequence at or after the k-th block of the run, skipping
    /// closed blocks; `None` past the head.
    fn first_in_run(&mut self, first_block: u32, run: u32, k: u32, scratch: &mut [u8]) -> (r:
        Result<Option<u64>, RingError<N::Refusal>>)
        requires
            old(self).shaped(),
            first_block < old(self).blocks,
            run <= old(self).blocks,
            old(scratch)@.len() >= SCRATCH,
        ensures
            final(self).untouched(old(self)),
            final(scratch)@.len() == old(scratch)@.len(),
            old(self).fits() ==> (r matches Ok(found) ==> found == first_at(
                old(self).parts(),
                first_block as int,
                run as int,
                k as int,
            )),
            r matches Err(why) ==> old(self).blameless(why),
    {
        let mut j: u32 = k;
        while j < run
            invariant
                self.untouched(old(self)),
                old(self).shaped(),
                first_block < old(self).blocks,
                run <= old(self).blocks,
                scratch@.len() == old(scratch)@.len(),
                scratch@.len() >= SCRATCH,
                old(self).fits() ==> first_at(
                    old(self).parts(),
                    first_block as int,
                    run as int,
                    k as int,
                ) == first_at(old(self).parts(), first_block as int, run as int, j as int),
            decreases run - j,
        {
            let block: u32 = self.in_run(first_block, j);
            match self.probe(block, scratch)? {
                Probe::Records { first } => return Ok(Some(first)),
                Probe::Erased => return Ok(None),
                Probe::Closed => {},
            }
            j = j + 1;
        }
        Ok(None)
    }

    /// Move the head into the next block and erase the one after it.
    fn turn_the_page(&mut self, scratch: &mut [u8]) -> (r: Result<(), RingError<N::Refusal>>)
        requires
            old(self).wf(),
            old(scratch)@.len() >= SCRATCH,
        ensures
            final(self).wf(),
            final(self).same_part(old(self)),
            final(self).damage == old(self).damage,
            final(self).floor == old(self).floor,
            final(self).head.next_seq == old(self).head.next_seq,
            final(scratch)@.len() == old(scratch)@.len(),
            r is Ok ==> final(self).head.at == 0,
            old(self).fits() ==> (r is Ok ==> {
                let found = turned(old(self).parts(), old(self).head);
                &&& final(self).parts() == found.blocks
                &&& final(self).head == found.head
            }),
            old(self).fits() ==> ({
                let next = after(old(self).head.block as int, old(self).blocks as int);
                final(self).kept_but_blocks(
                    old(self),
                    next,
                    after(next, old(self).blocks as int),
                )
            }),
            r is Ok ==> final(self).head.block == after(
                old(self).head.block as int,
                old(self).blocks as int,
            ),
            r matches Err(why) ==> old(self).blameless(why),
    {
        let next: u32 = self.next_block(self.head.block);
        // The erase ahead may not have landed before a reset, or the block
        // may have closed: it goes now, and an append waits once.
        self.ensure_erased(next, scratch)?;
        self.head.block = next;
        self.head.at = 0;
        self.erase_ahead(scratch)?;
        // The oldest records were in the block just erased; the oldest now
        // are the first after it, or, before the first wrap, unchanged.
        self.head.oldest = self.find_the_oldest(scratch)?;
        Ok(())
    }

    /// Erase the block holding the oldest records, which is the block the ring
    /// would erase next anyway, and find the head again from the bytes as a
    /// boot would.
    ///
    /// The scratch is checked before the erase: a search that cannot run after
    /// the bytes are gone would leave a head describing bytes that are no
    /// longer there.
    pub fn drop_oldest(&mut self, scratch: &mut [u8]) -> (r: Result<
        Dropped,
        RingError<N::Refusal>,
    >)
        requires
            old(self).wf(),
        ensures
            final(self).wf(),
            final(self).same_part(old(self)),
            final(scratch)@.len() == old(scratch)@.len(),
            if old(scratch)@.len() < SCRATCH {
                &&& r == Err::<Dropped, RingError<N::Refusal>>(
                    RingError::ScratchTooSmall(old(scratch)@.len() as usize),
                )
                &&& final(self).untouched(old(self))
            } else if old(self).spec_head().oldest is None {
                &&& r == Ok::<Dropped, RingError<N::Refusal>>(Dropped::Nothing)
                &&& final(self).untouched(old(self))
            } else {
                let block = run_first(old(self).parts(), old(self).spec_head().block as int);
                let found = finding(cleared(old(self).parts(), block));
                match r {
                    Ok(dropped) => old(self).fits() ==> {
                        &&& dropped == (Dropped::Block {
                            block: block as u32,
                            oldest: found.head.oldest,
                        })
                        &&& final(self).parts() == found.blocks
                        &&& final(self).spec_head() == found.head
                        &&& final(self).known_floor() is None
                        &&& final(self).spec_damage() == counted(
                            Damage { failed_crc: 0, closed: 0 },
                            found,
                        )
                    },
                    Err(why) => old(self).blameless(why),
                }
            },
    {
        if scratch.len() < SCRATCH {
            return Err(RingError::ScratchTooSmall(scratch.len()));
        }
        if self.head.oldest.is_none() {
            return Ok(Dropped::Nothing);
        }
        let (block, _) = self.run(scratch)?;
        self.erase(block)?;
        self.damage = Damage { failed_crc: 0, closed: 0 };
        self.floor = Floor::Unknown;
        self.find_the_head(scratch)?;
        Ok(Dropped::Block { block, oldest: self.head.oldest })
    }

    /// Program `framed`, laid out at the front of `scratch`, at the head: the
    /// body first, then the magic in a program of its own, so a cut between
    /// the two leaves a record without a magic.
    fn land(&mut self, framed: Framed, scratch: &[u8]) -> (r: Result<(), RingError<N::Refusal>>)
        requires
            old(self).wf(),
            OVERHEAD <= framed.len <= scratch@.len(),
            old(self).head.at + framed.len <= old(self).len(),
            scratch@[0] == MAGIC_LOW,
            scratch@[1] == MAGIC_HIGH,
        ensures
            final(self).wf(),
            final(self).same_part(old(self)),
            final(self).head == old(self).head,
            final(self).damage == old(self).damage,
            final(self).floor == old(self).floor,
            old(self).fits() ==> (r is Ok ==> {
                let block = old(self).head.block as int;
                final(self).parts() == old(self).parts().update(
                    block,
                    programmed(
                        old(self).parts()[block],
                        old(self).head.at as int,
                        scratch@.subrange(0, framed.len as int),
                    ),
                )
            }),
            old(self).fits() ==> final(self).kept_but(
                old(self),
                old(self).head.block as int,
                old(self).head.at as int,
                old(self).head.at + framed.len,
            ),
            old(self).fits() ==> magic_last(
                old(self).parts()[old(self).head.block as int],
                final(self).parts()[old(self).head.block as int],
                old(self).head.at as int,
                scratch@.subrange(0, framed.len as int),
            ),
            r matches Err(why) ==> old(self).blameless(why),
    {
        let ghost block = self.head.block as int;
        let ghost record = scratch@.subrange(0, framed.len as int);
        proof {
            if self.fits() {
                self.lemma_base(block);
            }
        }
        let at: u32 = self.address(self.head.block, self.head.at)?;
        let bodied = self.flash.write(at.saturating_add(2), framed.body(scratch));
        proof {
            if old(self).fits() {
                self.lemma_kept_but(
                    old(self),
                    block,
                    self.head.at as int,
                    self.head.at + framed.len,
                );
            }
        }
        match bodied {
            Ok(()) => {},
            Err(why) => return Err(RingError::Flash(why)),
        }
        let magic: [u8; 2] = MAGIC_BYTES;
        let marked = self.flash.write(at, magic.as_slice());
        proof {
            if old(self).fits() {
                self.lemma_kept_but(
                    old(self),
                    block,
                    self.head.at as int,
                    self.head.at + framed.len,
                );
            }
        }
        match marked {
            Ok(()) => {},
            Err(why) => return Err(RingError::Flash(why)),
        }
        proof {
            if old(self).fits() {
                let len = old(self).len() as int;
                let landed = old(self).parts().update(
                    block,
                    programmed(old(self).parts()[block], old(self).head.at as int, record),
                );
                assert(magic@ =~= seq![MAGIC_LOW, MAGIC_HIGH]);
                assert(self.flash.image() =~= programmed(
                    old(self).flash.image(),
                    at as int,
                    record,
                ));
                assert forall|k: int| 0 <= k < self.blocks implies self.parts()[k]
                    =~= landed[k] by {
                    old(self).lemma_base(k);
                    self.lemma_base(k);
                    if k < block {
                        lemma_apart(k, block, len);
                    } else if block < k {
                        lemma_apart(block, k, len);
                    }
                }
                assert(self.parts() =~= landed);
            }
        }
        Ok(())
    }

    /// Append one event whose bytes were read as `event`, and answer the
    /// sequence it got.
    ///
    /// The event must name the ring's next sequence: a payload that disagrees
    /// would hand a client two numbers for one record. What is refused before
    /// the page turns leaves the ring as it was.
    #[verifier::rlimit(60)]
    pub fn append_event(
        &mut self,
        class: Class,
        payload: &[u8],
        event: Option<(u64, Option<u64>)>,
        scratch: &mut [u8],
    ) -> (r: Result<u64, RingError<N::Refusal>>)
        requires
            old(self).wf(),
        ensures
            final(self).wf(),
            final(self).same_part(old(self)),
            final(self).spec_damage() == old(self).spec_damage(),
            final(scratch)@.len() == old(scratch)@.len(),
            match unappended::<N>(
                old(self).under().erase_bytes(),
                old(self).spec_head().next_seq,
                payload@.len(),
                event,
                old(scratch)@.len(),
            ) {
                Some(why) => {
                    &&& r == Err::<u64, RingError<N::Refusal>>(why)
                    &&& final(self).untouched(old(self))
                },
                None => match r {
                    Ok(seq) => {
                        &&& payload@.len() <= MAX_PAYLOAD
                        &&& seq == old(self).spec_head().next_seq
                        &&& old(self).fits() ==> ({
                            let record = image(seq, class, payload@);
                            let place = placed(
                                old(self).parts(),
                                old(self).spec_head(),
                                record.len() as int,
                            );
                            let left = appended(place.blocks, place.head, record);
                            &&& final(self).parts() == left.blocks
                            &&& final(self).spec_head() == left.head
                        })
                        &&& final(self).known_floor() == (match event {
                            Some((_, Some(at))) => Some(Some(at)),
                            _ => old(self).known_floor(),
                        })
                    },
                    Err(RingError::Unframed(why)) => {
                        &&& why == Unframed::PayloadTooLong(payload@.len() as usize)
                        &&& payload@.len() > MAX_PAYLOAD
                        &&& final(self).known_floor() == old(self).known_floor()
                        &&& old(self).fits() ==> ({
                            let place = placed(
                                old(self).parts(),
                                old(self).spec_head(),
                                OVERHEAD + payload@.len(),
                            );
                            &&& final(self).parts() == place.blocks
                            &&& final(self).spec_head() == place.head
                        })
                    },
                    Err(why) => {
                        &&& old(self).blameless(why)
                        &&& final(self).spared(
                            old(self),
                            image(old(self).spec_head().next_seq, class, payload@),
                        )
                    },
                },
            },
    {
        let needs: usize = framed_len(payload.len());
        if needs > self.flash.erase_size() {
            return Err(RingError::Unframed(Unframed::PayloadTooLong(payload.len())));
        }
        if scratch.len() < SCRATCH {
            return Err(RingError::ScratchTooSmall(scratch.len()));
        }
        let seq: u64 = self.head.next_seq;
        let stamped = match event {
            Some((named, at)) => if named == seq {
                at
            } else {
                return Err(RingError::NotTheNextEvent);
            },
            None => return Err(RingError::NotTheNextEvent),
        };
        proof {
            crate::record::lemma_image_len(
                seq,
                class,
                payload@,
                crate::record::crc_of(crate::record::covered_bytes(seq, class, payload@)),
            );
        }
        let len: u32 = self.block_len();
        if needs > u32::MAX as usize {
            proof {
                assert(!self.fits()) by {
                    lemma_apart(1, self.blocks as int, self.len() as int);
                }
            }
            return Err(RingError::OutOfRange);
        }
        // The page turns before the record is framed: turning it probes the
        // part through the same scratch the frame would sit in.
        if self.head.at as u64 + needs as u64 > len as u64 {
            self.turn_the_page(scratch)?;
        }
        let ghost place = *self;
        proof {
            if old(self).fits() {
                old(self).lemma_base(old(self).head.block as int);
            }
        }
        let framed = match crate::record::frame(scratch, seq, class, payload) {
            Ok(framed) => framed,
            Err(why) => {
                proof {
                    if old(self).fits() {
                        assert(old(self).parts()[old(self).head.block as int].len() == len);
                        lemma_apart(1, old(self).blocks as int, old(self).len() as int);
                        assert(needs == OVERHEAD + payload@.len());
                        if old(self).head.at + needs <= len {
                            assert(*self == *old(self));
                        }
                    }
                }
                return Err(RingError::Unframed(why));
            },
        };
        proof {
            assert(scratch@.subrange(0, framed.len as int) =~= image(seq, class, payload@));
        }
        self.land(framed, scratch)?;
        self.head.at = self.head.at + needs as u32;
        self.head.next_seq = seq.saturating_add(1);
        if self.head.oldest.is_none() {
            self.head.oldest = Some(seq);
        }
        if let Some(at) = stamped {
            self.floor = Floor::Found(Some(at));
        }
        Ok(seq)
    }

    /// Append one event and answer the sequence it got.
    ///
    /// `payload` is an encoded event naming [`next_seq`](Self::next_seq), which
    /// is checked. The body lands first, then the magic in a program of its
    /// own; a cut between the two leaves a record the scan reads as residue.
    pub fn append(&mut self, class: Class, payload: &[u8], scratch: &mut [u8]) -> (r: Result<
        u64,
        RingError<N::Refusal>,
    >)
        requires
            old(self).wf(),
        ensures
            final(self).wf(),
            final(self).same_part(old(self)),
            final(self).spec_damage() == old(self).spec_damage(),
            final(scratch)@.len() == old(scratch)@.len(),
            match unappended::<N>(
                old(self).under().erase_bytes(),
                old(self).spec_head().next_seq,
                payload@.len(),
                event_of(payload@),
                old(scratch)@.len(),
            ) {
                Some(why) => {
                    &&& r == Err::<u64, RingError<N::Refusal>>(why)
                    &&& final(self).untouched(old(self))
                },
                None => match r {
                    Ok(seq) => {
                        &&& payload@.len() <= MAX_PAYLOAD
                        &&& seq == old(self).spec_head().next_seq
                        &&& old(self).fits() ==> ({
                            let record = image(seq, class, payload@);
                            let place = placed(
                                old(self).parts(),
                                old(self).spec_head(),
                                record.len() as int,
                            );
                            let left = appended(place.blocks, place.head, record);
                            &&& final(self).parts() == left.blocks
                            &&& final(self).spec_head() == left.head
                        })
                        &&& final(self).known_floor() == (match event_of(payload@) {
                            Some((_, Some(at))) => Some(Some(at)),
                            _ => old(self).known_floor(),
                        })
                    },
                    Err(RingError::Unframed(why)) => {
                        &&& why == Unframed::PayloadTooLong(payload@.len() as usize)
                        &&& payload@.len() > MAX_PAYLOAD
                        &&& final(self).known_floor() == old(self).known_floor()
                        &&& old(self).fits() ==> ({
                            let place = placed(
                                old(self).parts(),
                                old(self).spec_head(),
                                OVERHEAD + payload@.len(),
                            );
                            &&& final(self).parts() == place.blocks
                            &&& final(self).spec_head() == place.head
                        })
                    },
                    Err(why) => {
                        &&& old(self).blameless(why)
                        &&& final(self).spared(
                            old(self),
                            image(old(self).spec_head().next_seq, class, payload@),
                        )
                    },
                },
            },
    {
        let event = decode_event(payload);
        self.append_event(class, payload, event, scratch)
    }

    /// The last block of the run whose first record is at or before `start`.
    fn find_in_run(
        &mut self,
        first_block: u32,
        run: u32,
        start: u64,
        scratch: &mut [u8],
    ) -> (r: Result<u32, RingError<N::Refusal>>)
        requires
            old(self).shaped(),
            first_block < old(self).blocks,
            1 <= run <= old(self).blocks,
            old(scratch)@.len() >= SCRATCH,
        ensures
            final(self).untouched(old(self)),
            final(scratch)@.len() == old(scratch)@.len(),
            r matches Ok(k) ==> k < run,
            old(self).fits() ==> (r matches Ok(k) ==> k == bisect_run(
                old(self).parts(),
                first_block as int,
                run as int,
                start,
                0,
                run as int,
            )),
            r matches Err(why) ==> old(self).blameless(why),
    {
        let mut lo: u32 = 0;
        let mut hi: u32 = run;
        while hi - lo > 1
            invariant
                self.untouched(old(self)),
                old(self).shaped(),
                first_block < old(self).blocks,
                lo < hi <= run <= old(self).blocks,
                scratch@.len() == old(scratch)@.len(),
                scratch@.len() >= SCRATCH,
                old(self).fits() ==> bisect_run(
                    old(self).parts(),
                    first_block as int,
                    run as int,
                    start,
                    0,
                    run as int,
                ) == bisect_run(
                    old(self).parts(),
                    first_block as int,
                    run as int,
                    start,
                    lo as int,
                    hi as int,
                ),
            decreases hi - lo,
        {
            let mid: u32 = lo + (hi - lo) / 2;
            let before = match self.first_in_run(first_block, run, mid, scratch)? {
                Some(first) => first <= start,
                None => false,
            };
            if before {
                lo = mid;
            } else {
                hi = mid;
            }
        }
        Ok(lo)
    }

    /// Show `visitor` the records of one block at or after `start`, and answer
    /// the sequence to ask for next and whether more is wanted.
    fn visit_block<V: Visit>(
        &mut self,
        block: u32,
        start: u64,
        next: u64,
        scratch: &mut [u8],
        visitor: &mut V,
    ) -> (r: Result<(u64, Wants), RingError<N::Refusal>>)
        requires
            old(self).shaped(),
            block < old(self).blocks,
            old(scratch)@.len() >= SCRATCH,
        ensures
            final(self).untouched(old(self)),
            final(scratch)@.len() == old(scratch)@.len(),
            old(self).fits() ==> (r matches Ok(went) ==> shown(
                at_or_after(scan(old(self).parts()[block as int]).entries, start),
                old(visitor).seen(),
                final(visitor).seen(),
                next,
                went.0,
                went.1 is Enough,
            )),
            r matches Ok(went) ==> {
                &&& stopped(old(visitor).answers(), final(visitor).answers())
                &&& (went.1 is Enough) == had_enough(
                    old(visitor).answers(),
                    final(visitor).answers(),
                )
                &&& final(visitor).answers().len() - old(visitor).answers().len() == final(visitor).seen().len() - old(visitor).seen().len()
            },
            final(visitor).lasting() == old(visitor).lasting(),
            r matches Err(why) ==> old(self).blameless(why),
    {
        let len: u32 = self.block_len();
        let ghost bytes = self.parts()[block as int];
        proof {
            if self.fits() {
                self.lemma_base(block as int);
            }
        }
        let mut asked: u64 = next;
        let ghost mut entries: Seq<Entry> = Seq::empty();
        let mut at: u32 = 0;
        proof {
            lemma_none_at_or_after(start);
            assert(scan(bytes).entries =~= entries + scan(bytes).entries);
            assert(visitor.seen() =~= old(visitor).seen() + at_or_after(entries, start));
            assert(visitor.answers().take(visitor.answers().len() as int) =~= visitor.answers());
        }
        loop
            invariant
                self.untouched(old(self)),
                old(self).shaped(),
                block < old(self).blocks,
                len == old(self).len(),
                at <= len,
                scratch@.len() == old(scratch)@.len(),
                scratch@.len() >= SCRATCH,
                bytes == old(self).parts()[block as int],
                old(self).fits() ==> bytes == old(self).part(block as int) && bytes.len() == len,
                visitor.seen() == old(visitor).seen() + at_or_after(entries, start),
                visitor.lasting() == old(visitor).lasting(),
                visitor.answers().len() == old(visitor).answers().len() + at_or_after(
                    entries,
                    start,
                ).len(),
                visitor.answers().take(old(visitor).answers().len() as int) == old(visitor).answers(),
                forall|i: int|
                    old(visitor).answers().len() <= i < visitor.answers().len()
                        ==> #[trigger] visitor.answers()[i] is More,
                asked == (if at_or_after(entries, start).len() > 0 {
                    following(at_or_after(entries, start).last().seq)
                } else {
                    next
                }),
                old(self).fits() ==> scan(bytes).entries == entries + scan_from(
                    bytes,
                    at as int,
                    at as int,
                    len as int,
                ).entries,
            decreases len - at,
        {
            let ghost before = at;
            let ghost had = entries;
            let walked = self.scan_block(block, at, len, scratch)?;
            let end: u32 = match walked.halt {
                Halt::Record { end } => end,
                _ => {
                    proof {
                        if old(self).fits() {
                            assert(scan(bytes).entries =~= entries);
                            let shown_here = at_or_after(entries, start);
                            assert(shown_here.take(shown_here.len() as int) =~= shown_here);
                            assert(visitor.seen().len() - old(visitor).seen().len()
                                == shown_here.len());
                            assert(shown(
                                shown_here,
                                old(visitor).seen(),
                                visitor.seen(),
                                next,
                                asked,
                                false,
                            ));
                        }
                    }
                    return Ok((asked, Wants::More));
                },
            };
            if let Some(found) = crate::record::verify(scratch) {
                proof {
                    entries = entries.push(found@);
                    assert(entries.drop_last() =~= had);
                    if old(self).fits() {
                        let on = scan_from(bytes, before as int, before as int, len as int);
                        let then = scan_from(bytes, end as int, end as int, len as int);
                        assert(on.entries =~= seq![found@] + then.entries);
                        assert(scan(bytes).entries =~= entries + then.entries);
                    }
                }
                if found.seq >= start {
                    asked = found.seq.saturating_add(1);
                    let ghost told = visitor.answers();
                    let wants = visitor.visit(&found);
                    proof {
                        assert(visitor.answers().take(old(visitor).answers().len() as int)
                            =~= told.take(old(visitor).answers().len() as int));
                        assert(visitor.seen() =~= old(visitor).seen() + at_or_after(
                            entries,
                            start,
                        ));
                    }
                    if let Wants::Enough = wants {
                        proof {
                            if old(self).fits() {
                                let then = scan_from(bytes, end as int, end as int, len as int);
                                lemma_at_or_after_prefix(entries, then.entries, start);
                            }
                        }
                        return Ok((asked, Wants::Enough));
                    }
                }
            }
            at = end;
        }
    }

    /// Visit records from `from` onward, oldest first, and answer the sequence
    /// a client should ask for next. A `from` below the oldest sequence held
    /// is answered from the oldest, so the client can see it lost data; a hole
    /// is a record that failed its CRC.
    pub fn read_from<V: Visit>(&mut self, from: u64, scratch: &mut [u8], visitor: &mut V) -> (r:
        Result<u64, RingError<N::Refusal>>)
        requires
            old(self).wf(),
        ensures
            final(self).wf(),
            final(self).untouched(old(self)),
            final(scratch)@.len() == old(scratch)@.len(),
            if old(scratch)@.len() < SCRATCH {
                &&& r == Err::<u64, RingError<N::Refusal>>(
                    RingError::ScratchTooSmall(old(scratch)@.len() as usize),
                )
                &&& *final(visitor) == *old(visitor)
            } else {
                match old(self).spec_head().oldest {
                    None => {
                        &&& r == Ok::<u64, RingError<N::Refusal>>(
                            if from == 0 {
                                1
                            } else {
                                from
                            },
                        )
                        &&& *final(visitor) == *old(visitor)
                    },
                    Some(oldest) => match r {
                        Ok(next) => {
                            &&& stopped(old(visitor).answers(), final(visitor).answers())
                            &&& final(visitor).answers().len() - old(visitor).answers().len()
                                == final(visitor).seen().len() - old(visitor).seen().len()
                            &&& old(self).fits() ==> shown(
                                reading(
                                    old(self).parts(),
                                    old(self).spec_head().block as int,
                                    read_start(from, oldest),
                                ),
                                old(visitor).seen(),
                                final(visitor).seen(),
                                read_start(from, oldest),
                                next,
                                had_enough(old(visitor).answers(), final(visitor).answers()),
                            )
                        },
                        Err(why) => old(self).blameless(why),
                    },
                }
            },
            final(visitor).lasting() == old(visitor).lasting(),
    {
        if scratch.len() < SCRATCH {
            return Err(RingError::ScratchTooSmall(scratch.len()));
        }
        let oldest: u64 = match self.head.oldest {
            Some(oldest) => oldest,
            None => {
                return if from == 0 {
                    Ok(1)
                } else {
                    Ok(from)
                };
            },
        };
        let mut start: u64 = if from < oldest {
            oldest
        } else {
            from
        };
        if start == 0 {
            start = 1;
        }
        let (first_block, run) = self.run(scratch)?;
        let lo: u32 = self.find_in_run(first_block, run, start, scratch)?;
        let ghost blocks = self.parts();
        let ghost all = readable(blocks, first_block as int, run as int, lo as int, start);
        let ghost mut past: Seq<Entry> = Seq::empty();
        let mut next: u64 = start;
        let mut k: u32 = lo;
        proof {
            assert(all =~= past + all);
            assert(visitor.seen() =~= old(visitor).seen() + past);
            assert(visitor.answers().take(visitor.answers().len() as int) =~= visitor.answers());
        }
        while k < run
            invariant
                self.untouched(old(self)),
                old(self).wf(),
                first_block < old(self).blocks,
                lo <= k <= run <= old(self).blocks,
                scratch@.len() == old(scratch)@.len(),
                scratch@.len() >= SCRATCH,
                blocks == old(self).parts(),
                all == readable(blocks, first_block as int, run as int, lo as int, start),
                old(self).fits() ==> all == reading(
                    blocks,
                    old(self).head.block as int,
                    start,
                ),
                old(self).head.oldest == Some(oldest),
                start == read_start(from, oldest),
                old(self).fits() ==> all == past + readable(
                    blocks,
                    first_block as int,
                    run as int,
                    k as int,
                    start,
                ),
                old(self).fits() ==> visitor.seen() == old(visitor).seen() + past,
                visitor.lasting() == old(visitor).lasting(),
                visitor.answers().len() - old(visitor).answers().len() == visitor.seen().len()
                    - old(visitor).seen().len(),
                visitor.answers().len() >= old(visitor).answers().len(),
                visitor.answers().take(old(visitor).answers().len() as int) == old(visitor).answers(),
                forall|i: int|
                    old(visitor).answers().len() <= i < visitor.answers().len()
                        ==> #[trigger] visitor.answers()[i] is More,
                old(self).fits() ==> next == (if past.len() > 0 {
                    following(past.last().seq)
                } else {
                    start
                }),
            decreases run - k,
        {
            let block: u32 = self.in_run(first_block, k);
            let ghost before = visitor.seen();
            let ghost told = visitor.answers();
            let ghost came = next;
            let ghost here = at_or_after(scan(blocks[block as int]).entries, start);
            let (asked, wants) = self.visit_block(block, start, next, scratch, visitor)?;
            next = asked;
            proof {
                let since = old(visitor).answers().len() as int;
                assert(visitor.answers().take(since) =~= visitor.answers().take(
                    told.len() as int,
                ).take(since));
                assert forall|i: int| since <= i < visitor.answers().len() - 1 implies
                    #[trigger] visitor.answers()[i] is More by {
                    if i < told.len() {
                        assert(visitor.answers().take(told.len() as int)[i] == told[i]);
                    }
                }
                if visitor.answers().len() == told.len() {
                    assert(visitor.answers().take(told.len() as int) =~= visitor.answers());
                }
                if old(self).fits() {
                    let on = readable(blocks, first_block as int, run as int, k + 1, start);
                    assert(all =~= past + (here + on));
                    let n = visitor.seen().len() - before.len();
                    lemma_shown(here, before, visitor.seen(), came, next, wants is Enough);
                    if wants is Enough {
                        assert(all.take(past.len() + n) =~= past + here.take(n));
                        assert(visitor.seen() =~= old(visitor).seen() + all.take(past.len() + n));
                    } else {
                        assert(here.take(here.len() as int) =~= here);
                        assert(visitor.seen() =~= old(visitor).seen() + (past + here));
                        past = past + here;
                        assert(all =~= past + on);
                    }
                }
            }
            if let Wants::Enough = wants {
                return Ok(next);
            }
            k = k + 1;
        }
        proof {
            if old(self).fits() {
                assert(readable(blocks, first_block as int, run as int, run as int, start)
                    =~= Seq::<Entry>::empty());
                assert(all =~= past);
                assert(all.take(all.len() as int) =~= all);
            }
        }
        Ok(next)
    }

    /// The last timestamp the records of one block carry.
    fn stamp_of_block(&mut self, block: u32, scratch: &mut [u8]) -> (r: Result<
        Option<u64>,
        RingError<N::Refusal>,
    >)
        requires
            old(self).shaped(),
            block < old(self).blocks,
            old(scratch)@.len() >= SCRATCH,
        ensures
            final(self).untouched(old(self)),
            final(scratch)@.len() == old(scratch)@.len(),
            old(self).fits() ==> (r matches Ok(at) ==> at == stamp(
                scan(old(self).parts()[block as int]).entries,
            )),
            r matches Err(why) ==> old(self).blameless(why),
    {
        let len: u32 = self.block_len();
        let ghost bytes = self.parts()[block as int];
        proof {
            if self.fits() {
                self.lemma_base(block as int);
            }
        }
        let ghost mut entries: Seq<Entry> = Seq::empty();
        let mut at: u32 = 0;
        let mut newest: Option<u64> = None;
        proof {
            assert(scan(bytes).entries =~= entries + scan(bytes).entries);
        }
        loop
            invariant
                self.untouched(old(self)),
                old(self).shaped(),
                block < old(self).blocks,
                len == old(self).len(),
                at <= len,
                scratch@.len() == old(scratch)@.len(),
                scratch@.len() >= SCRATCH,
                bytes == old(self).parts()[block as int],
                old(self).fits() ==> bytes == old(self).part(block as int) && bytes.len() == len,
                newest == stamp(entries),
                old(self).fits() ==> scan(bytes).entries == entries + scan_from(
                    bytes,
                    at as int,
                    at as int,
                    len as int,
                ).entries,
            decreases len - at,
        {
            let ghost before = at;
            let ghost had = entries;
            let walked = self.scan_block(block, at, len, scratch)?;
            let end: u32 = match walked.halt {
                Halt::Record { end } => end,
                _ => {
                    proof {
                        if old(self).fits() {
                            assert(scan(bytes).entries =~= entries);
                        }
                    }
                    return Ok(newest);
                },
            };
            if let Some(found) = crate::record::verify(scratch) {
                newest = newer_stamp(newest, decode_event(found.payload));
                proof {
                    entries = entries.push(found@);
                    assert(entries.drop_last() =~= had);
                    if old(self).fits() {
                        let on = scan_from(bytes, before as int, before as int, len as int);
                        let then = scan_from(bytes, end as int, end as int, len as int);
                        assert(on.entries =~= seq![found@] + then.entries);
                        assert(scan(bytes).entries =~= entries + then.entries);
                    }
                }
            }
            at = end;
        }
    }

    /// The newest wall-clock timestamp the log holds, or `None` when no record
    /// carries one: the floor the first clock offer after boot is checked
    /// against. Found on the first call and remembered.
    pub fn floor(&mut self, scratch: &mut [u8]) -> (r: Result<Option<u64>, RingError<N::Refusal>>)
        requires
            old(self).wf(),
        ensures
            final(self).wf(),
            final(self).same_part(old(self)),
            final(self).parts() == old(self).parts(),
            final(self).spec_head() == old(self).spec_head(),
            final(self).spec_damage() == old(self).spec_damage(),
            final(scratch)@.len() == old(scratch)@.len(),
            match old(self).known_floor() {
                Some(found) => {
                    &&& r == Ok::<Option<u64>, RingError<N::Refusal>>(found)
                    &&& final(self).untouched(old(self))
                },
                None => if old(scratch)@.len() < SCRATCH {
                    &&& r == Err::<Option<u64>, RingError<N::Refusal>>(
                        RingError::ScratchTooSmall(old(scratch)@.len() as usize),
                    )
                    &&& final(self).untouched(old(self))
                } else {
                    match r {
                        Ok(found) => {
                            &&& final(self).known_floor() == Some(found)
                            &&& old(self).fits() ==> ({
                                let head = old(self).spec_head().block as int;
                                found == newest_stamp(
                                    old(self).parts(),
                                    run_first(old(self).parts(), head),
                                    run_len(old(self).parts(), head),
                                )
                            })
                        },
                        Err(why) => {
                            &&& old(self).blameless(why)
                            &&& final(self).untouched(old(self))
                        },
                    }
                },
            },
    {
        if let Floor::Found(found) = self.floor {
            return Ok(found);
        }
        if scratch.len() < SCRATCH {
            return Err(RingError::ScratchTooSmall(scratch.len()));
        }
        let (first_block, run) = self.run(scratch)?;
        let mut newest: Option<u64> = None;
        let mut k: u32 = run;
        while k > 0
            invariant_except_break
                newest is None,
                old(self).fits() ==> newest_stamp(
                    old(self).parts(),
                    first_block as int,
                    run as int,
                ) == newest_stamp(old(self).parts(), first_block as int, k as int),
            invariant
                self.untouched(old(self)),
                old(self).wf(),
                old(self).floor is Unknown,
                first_block < old(self).blocks,
                k <= run <= old(self).blocks,
                scratch@.len() == old(scratch)@.len(),
                scratch@.len() >= SCRATCH,
            ensures
                old(self).fits() ==> newest_stamp(
                    old(self).parts(),
                    first_block as int,
                    run as int,
                ) == newest,
            decreases k,
        {
            let block: u32 = self.in_run(first_block, k - 1);
            let in_block = self.stamp_of_block(block, scratch)?;
            if in_block.is_some() {
                newest = in_block;
                break ;
            }
            k = k - 1;
        }
        self.floor = Floor::Found(newest);
        Ok(newest)
    }
}

} // verus!
