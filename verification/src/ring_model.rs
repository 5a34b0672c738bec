//! What the log's blocks say, as mathematics: where records start, what a
//! walk over a block finds, and where the log continues.

use crate::record::{
    claimed_len, verified, Entry, Header, HEADER, MAGIC_HIGH, MAGIC_LOW, MAX_RECORD,
};
use vstd::prelude::*;

verus! {

/// How far into a block a probe hunts for its first record: past one record
/// at its largest, so a first record that failed its CRC does not hide the
/// valid one after it, and no further.
pub const PROBE_REACH: usize = 2 * MAX_RECORD;

/// A block of `len` erased bytes.
pub open spec fn blank(len: nat) -> Seq<u8> {
    Seq::new(len, |i: int| 0xFFu8)
}

/// Whether every byte is erased.
pub open spec fn erased(bytes: Seq<u8>) -> bool {
    forall|i: int| 0 <= i < bytes.len() ==> bytes[i] == 0xFF
}

/// Whether the bytes a header would take are erased, as far as they go.
pub open spec fn erased_head(rest: Seq<u8>) -> bool {
    forall|i: int| 0 <= i < HEADER && i < rest.len() ==> rest[i] == 0xFF
}

/// The first magic that starts at or after `from` and ends before `end`.
pub open spec fn next_magic(block: Seq<u8>, from: int, end: int) -> Option<int>
    decreases end - from,
{
    if from < 0 || from + 1 >= end {
        None
    } else if block[from] == MAGIC_LOW && block[from + 1] == MAGIC_HIGH {
        Some(from)
    } else {
        next_magic(block, from + 1, end)
    }
}

/// Where a walk over a block stops.
pub enum Stop {
    /// At a record that verifies, which starts at `at` and ends at `end`.
    Record { at: int, end: int, entry: Entry },
    /// At an erased header: nothing the log wrote lies past it.
    Tail,
    /// At residue no record follows within reach.
    Residue,
    /// At the reach.
    Reach,
}

/// What a walk stepped over before it stopped, and where it stopped.
pub struct Walk {
    /// The magics it met whose record did not verify.
    pub failed: nat,
    /// Where it stopped.
    pub stop: Stop,
}

/// The walk over `block` from `at`: the record there if one verifies; the
/// tail if the header's bytes are erased; else on to the next magic that
/// starts inside `reach`, and the block is closed when there is none.
pub open spec fn walk(block: Seq<u8>, at: int, reach: int) -> Walk
    decreases reach - at,
{
    if at < 0 || at >= reach {
        Walk { failed: 0, stop: Stop::Reach }
    } else {
        let rest = block.skip(at);
        match verified(rest) {
            Some(entry) => Walk {
                failed: 0,
                stop: Stop::Record { at, end: at + claimed_len(rest)->0, entry },
            },
            None => if erased_head(rest) {
                Walk { failed: 0, stop: Stop::Tail }
            } else {
                let failed: nat = if Header::spec_parse(rest) is Some {
                    1
                } else {
                    0
                };
                match next_magic(block, at + 1, reach) {
                    None => Walk { failed, stop: Stop::Residue },
                    Some(next) => if at < next < reach {
                        let on = walk(block, next, reach);
                        Walk { failed: failed + on.failed, stop: on.stop }
                    } else {
                        Walk { failed, stop: Stop::Residue }
                    },
                }
            },
        }
    }
}

/// What a scan of a block finds.
#[verifier::ext_equal]
pub struct Scan {
    /// The records, in order.
    pub entries: Seq<Entry>,
    /// The end of the last of them: where an append would go.
    pub tail: int,
    /// Whether something is written past the last record with no record
    /// after it: the block is finished.
    pub closed: bool,
    /// The magics whose record did not verify.
    pub failed: nat,
}

/// The scan of `block` from `at`, the last record so far ending at `tail`.
pub open spec fn scan_from(block: Seq<u8>, at: int, tail: int, reach: int) -> Scan
    decreases
            (if at < reach {
                reach - at
            } else {
                0
            }),
{
    let walked = walk(block, at, reach);
    match walked.stop {
        Stop::Record { end, entry, .. } => if at < end && at < reach {
            let on = scan_from(block, end, end, reach);
            Scan {
                entries: seq![entry] + on.entries,
                tail: on.tail,
                closed: on.closed,
                failed: walked.failed + on.failed,
            }
        } else {
            Scan { entries: Seq::empty(), tail, closed: false, failed: walked.failed }
        },
        Stop::Residue => Scan {
            entries: Seq::empty(),
            tail,
            closed: true,
            failed: walked.failed,
        },
        _ => Scan { entries: Seq::empty(), tail, closed: false, failed: walked.failed },
    }
}

/// The scan of a whole block.
pub open spec fn scan(block: Seq<u8>) -> Scan {
    scan_from(block, 0, 0, block.len() as int)
}

/// What a probe of a block's first bytes finds.
#[derive(Debug, Clone, Copy, PartialEq, Eq, Structural)]
pub enum Probe {
    /// Every byte a record would start with is erased.
    Erased,
    /// Written and holding no readable record: a first record cut short, or
    /// damage.
    Closed,
    /// Holding records, the first at this sequence.
    Records {
        /// The sequence of the first record.
        first: u64,
    },
}

/// How far a probe reaches into a block of `len` bytes.
pub open spec fn probe_reach(len: nat) -> int {
    if PROBE_REACH <= len {
        PROBE_REACH as int
    } else {
        len as int
    }
}

/// The probe of a block.
pub open spec fn probe(block: Seq<u8>) -> Probe {
    match walk(block, 0, probe_reach(block.len())).stop {
        Stop::Record { entry, .. } => Probe::Records { first: entry.seq },
        Stop::Residue => Probe::Closed,
        _ => Probe::Erased,
    }
}

/// The first sequence in the first block holding records at or after `at`,
/// stopping at an erased one.
pub open spec fn nearest(blocks: Seq<Seq<u8>>, at: int) -> Option<u64>
    decreases blocks.len() - at,
{
    if at < 0 || at >= blocks.len() {
        None
    } else {
        match probe(blocks[at]) {
            Probe::Records { first } => Some(first),
            Probe::Erased => None,
            Probe::Closed => nearest(blocks, at + 1),
        }
    }
}

/// The first block at or after `at` holding records.
pub open spec fn anchor(blocks: Seq<Seq<u8>>, at: int) -> Option<int>
    decreases blocks.len() - at,
{
    if at < 0 || at >= blocks.len() {
        None
    } else if probe(blocks[at]) is Records {
        Some(at)
    } else {
        anchor(blocks, at + 1)
    }
}

/// The first block at or after `at` that probes erased.
pub open spec fn first_erased(blocks: Seq<Seq<u8>>, at: int) -> Option<int>
    decreases blocks.len() - at,
{
    if at < 0 || at >= blocks.len() {
        None
    } else if probe(blocks[at]) is Erased {
        Some(at)
    } else {
        first_erased(blocks, at + 1)
    }
}

/// Whether the nearest records at or after `at` are no older than `first`.
pub open spec fn no_older(blocks: Seq<Seq<u8>>, at: int, first: u64) -> bool {
    nearest(blocks, at) matches Some(seq) && seq >= first
}

/// The search for the last block no older than the anchor, by halving.
pub open spec fn bisect(blocks: Seq<Seq<u8>>, first: u64, lo: int, hi: int) -> int
    decreases hi - lo,
{
    if hi - lo <= 1 {
        lo
    } else {
        let mid = lo + (hi - lo) / 2;
        if no_older(blocks, mid, first) {
            bisect(blocks, first, mid, hi)
        } else {
            bisect(blocks, first, lo, mid)
        }
    }
}

/// The block after `block` in a ring of `count`.
pub open spec fn after(block: int, count: int) -> int {
    if block + 1 >= count {
        0
    } else {
        block + 1
    }
}

/// The block `k` after `block` in a ring of `count`.
pub open spec fn ahead(block: int, k: int, count: int) -> int {
    (block + k) % count
}

/// The first block past `block` that is not closed, in at most `turns` steps.
pub open spec fn past_closed(blocks: Seq<Seq<u8>>, block: int, turns: nat) -> int
    decreases turns,
{
    if turns == 0 {
        block
    } else {
        let next = after(block, blocks.len() as int);
        if probe(blocks[next]) is Closed {
            past_closed(blocks, next, (turns - 1) as nat)
        } else {
            next
        }
    }
}

/// `blocks` with block `k` erased.
pub open spec fn cleared(blocks: Seq<Seq<u8>>, k: int) -> Seq<Seq<u8>> {
    blocks.update(k, blank(blocks[k].len()))
}

/// The first block holding records from `block` on, in at most `turns` steps;
/// `block` itself when none does.
pub open spec fn run_start(blocks: Seq<Seq<u8>>, block: int, turns: nat) -> int
    decreases turns,
{
    if turns == 0 {
        block
    } else if probe(blocks[block]) is Records {
        block
    } else {
        run_start(blocks, after(block, blocks.len() as int), (turns - 1) as nat)
    }
}

/// The first block of the run a log with its head in block `head` occupies.
pub open spec fn run_first(blocks: Seq<Seq<u8>>, head: int) -> int {
    let count = blocks.len() as int;
    run_start(blocks, after(after(head, count), count), blocks.len())
}

/// How many blocks that run has.
pub open spec fn run_len(blocks: Seq<Seq<u8>>, head: int) -> int {
    let count = blocks.len() as int;
    (head + count - run_first(blocks, head)) % count + 1
}

/// The oldest sequence held by a log whose head is in block `head`: the first
/// of its run's first block, or none when no block holds records.
pub open spec fn oldest(blocks: Seq<Seq<u8>>, head: int) -> Option<u64> {
    match probe(blocks[run_first(blocks, head)]) {
        Probe::Records { first } => Some(first),
        _ => None,
    }
}

/// Where the log continues.
#[derive(Debug, Clone, Copy, PartialEq, Eq, Structural)]
pub struct Head {
    /// The block the next record goes into.
    pub block: u32,
    /// The offset within it.
    pub at: u32,
    /// The sequence number the next record gets.
    pub next_seq: u64,
    /// The oldest sequence a client can still be given, if any. Below it the
    /// answer is that it is gone, which is not the same as there being nothing.
    pub oldest: Option<u64>,
}

/// What finding the head comes to: the blocks as they are left, the head, and
/// what the scan of the head's block counted.
#[verifier::ext_equal]
pub struct Finding {
    /// The blocks after it.
    pub blocks: Seq<Seq<u8>>,
    /// The head.
    pub head: Head,
    /// Records that failed in the head's block.
    pub failed: nat,
    /// Whether the head's block was closed.
    pub closed: bool,
}

/// One more than `seq`, as far as sequences go.
pub open spec fn following(seq: u64) -> u64 {
    if seq == u64::MAX {
        seq
    } else {
        (seq + 1) as u64
    }
}

/// Where a log with nothing readable starts over.
pub open spec fn fresh_start(blocks: Seq<Seq<u8>>) -> Finding {
    let block = match first_erased(blocks, 0) {
        Some(block) => block,
        None => 0,
    };
    Finding {
        blocks: cleared(cleared(blocks, block), after(block, blocks.len() as int)),
        head: Head { block: block as u32, at: 0, next_seq: 1, oldest: None },
        failed: 0,
        closed: false,
    }
}

/// Where a log continues whose first records are in block `anchored`: after
/// the last record of the newest block, or, when a write cut short closed
/// it, at the start of the next block.
pub open spec fn continuation(blocks: Seq<Seq<u8>>, anchored: int) -> Finding {
    let count = blocks.len() as int;
    let first = probe(blocks[anchored])->first;
    let newest = bisect(blocks, first, anchored, count);
    let scanned = scan(blocks[newest]);
    let block = if scanned.closed {
        past_closed(blocks, newest, blocks.len())
    } else {
        newest
    };
    let ready = if scanned.closed {
        cleared(blocks, block)
    } else {
        blocks
    };
    let left = cleared(ready, after(block, count));
    let last: u64 = if scanned.entries.len() > 0 {
        following(scanned.entries.last().seq)
    } else {
        1
    };
    Finding {
        blocks: left,
        head: Head {
            block: block as u32,
            at: if scanned.closed {
                0
            } else {
                scanned.tail as u32
            },
            next_seq: if last == 1 {
                following(first)
            } else {
                last
            },
            oldest: oldest(left, block),
        },
        failed: scanned.failed,
        closed: scanned.closed,
    }
}

/// Where the log on `blocks` continues.
pub open spec fn finding(blocks: Seq<Seq<u8>>) -> Finding {
    match anchor(blocks, 0) {
        None => fresh_start(blocks),
        Some(anchored) => continuation(blocks, anchored),
    }
}

/// Where the log continues once the page is turned: in the next block, erased
/// for it, with the one after it erased ahead.
pub open spec fn turned(blocks: Seq<Seq<u8>>, head: Head) -> Finding {
    let count = blocks.len() as int;
    let next = after(head.block as int, count);
    let left = cleared(cleared(blocks, next), after(next, count));
    Finding {
        blocks: left,
        head: Head {
            block: next as u32,
            at: 0,
            next_seq: head.next_seq,
            oldest: oldest(left, next),
        },
        failed: 0,
        closed: false,
    }
}

/// Where a record of `needs` bytes goes: where the head is, or, when the block
/// has no room for it, where it is after the page is turned.
pub open spec fn placed(blocks: Seq<Seq<u8>>, head: Head, needs: int) -> Finding {
    if head.at + needs > blocks[head.block as int].len() {
        turned(blocks, head)
    } else {
        Finding { blocks, head, failed: 0, closed: false }
    }
}

/// The log after `record`, the bytes of record `head.next_seq`, is programmed
/// at the head.
pub open spec fn appended(blocks: Seq<Seq<u8>>, head: Head, record: Seq<u8>) -> Finding {
    let block = head.block as int;
    Finding {
        blocks: blocks.update(
            block,
            crate::nor::programmed(blocks[block], head.at as int, record),
        ),
        head: Head {
            block: head.block,
            at: (head.at + record.len()) as u32,
            next_seq: following(head.next_seq),
            oldest: match head.oldest {
                Some(oldest) => Some(oldest),
                None => Some(head.next_seq),
            },
        },
        failed: 0,
        closed: false,
    }
}

/// The first sequence at or after the `k`-th block of the run, skipping closed
/// blocks.
pub open spec fn first_at(blocks: Seq<Seq<u8>>, first: int, run: int, k: int) -> Option<u64>
    decreases run - k,
{
    if k < 0 || k >= run {
        None
    } else {
        match probe(blocks[ahead(first, k, blocks.len() as int)]) {
            Probe::Records { first } => Some(first),
            Probe::Erased => None,
            Probe::Closed => first_at(blocks, first, run, k + 1),
        }
    }
}

/// The search for the last block of the run that starts at or before `start`.
pub open spec fn bisect_run(
    blocks: Seq<Seq<u8>>,
    first: int,
    run: int,
    start: u64,
    lo: int,
    hi: int,
) -> int
    decreases hi - lo,
{
    if hi - lo <= 1 {
        lo
    } else {
        let mid = lo + (hi - lo) / 2;
        if first_at(blocks, first, run, mid) matches Some(seq) && seq <= start {
            bisect_run(blocks, first, run, start, mid, hi)
        } else {
            bisect_run(blocks, first, run, start, lo, mid)
        }
    }
}

/// The records of `entries` at or after `start`, in order.
pub open spec fn at_or_after(entries: Seq<Entry>, start: u64) -> Seq<Entry>
    decreases entries.len(),
{
    if entries.len() == 0 {
        Seq::empty()
    } else {
        let before = at_or_after(entries.drop_last(), start);
        if entries.last().seq >= start {
            before.push(entries.last())
        } else {
            before
        }
    }
}

/// Every record at or after `start` in the blocks of the run from the `k`-th
/// on.
pub open spec fn readable(blocks: Seq<Seq<u8>>, first: int, run: int, k: int, start: u64) -> Seq<
    Entry,
>
    decreases run - k,
{
    if k < 0 || k >= run {
        Seq::empty()
    } else {
        at_or_after(scan(blocks[ahead(first, k, blocks.len() as int)]).entries, start) + readable(
            blocks,
            first,
            run,
            k + 1,
            start,
        )
    }
}

/// What a read from `start` visits, oldest first.
pub open spec fn reading(blocks: Seq<Seq<u8>>, head: int, start: u64) -> Seq<Entry> {
    let first = run_first(blocks, head);
    let run = run_len(blocks, head);
    readable(blocks, first, run, bisect_run(blocks, first, run, start, 0, run), start)
}

/// What an event's bytes say, as `km43::Event::decode` reads them: its
/// sequence and its timestamp, or nothing when they are not an event.
pub uninterp spec fn event_of(payload: Seq<u8>) -> Option<(u64, Option<u64>)>;

/// The timestamp of the last of `entries` that carries one.
pub open spec fn stamp(entries: Seq<Entry>) -> Option<u64>
    decreases entries.len(),
{
    if entries.len() == 0 {
        None
    } else {
        match event_of(entries.last().payload) {
            Some((_, Some(at))) => Some(at),
            _ => stamp(entries.drop_last()),
        }
    }
}

/// The newest timestamp in the first `k` blocks of the run, walking back.
pub open spec fn newest_stamp(blocks: Seq<Seq<u8>>, first: int, k: int) -> Option<u64>
    decreases k,
{
    if k <= 0 {
        None
    } else {
        match stamp(scan(blocks[ahead(first, k - 1, blocks.len() as int)]).entries) {
            Some(at) => Some(at),
            None => newest_stamp(blocks, first, k - 1),
        }
    }
}

} // verus!
