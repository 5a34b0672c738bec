//! What holds of the log as a whole: what is appended reads back, a torn write
//! loses nothing before it, and a reboot finds the log where it was left.

use crate::nor::{programmed, same_outside, NorPart};
use crate::record::{
    claimed_len, image, law_a_framed_record_reads_back, law_only_the_records_own_bytes_matter,
    lemma_image_len, verified, Class, Entry, Header, HEADER, MAX_PAYLOAD, MAX_RECORD, OVERHEAD,
};
use crate::ring::{block_len_of, counted, fits_on, parts_of, Damage, Ring};
use crate::ring_model::{
    after, ahead, anchor, appended, at_or_after, bisect, bisect_run, blank, cleared, erased,
    erased_head, finding, first_at, nearest, next_magic, no_older, oldest, past_closed, placed, probe,
    probe_reach, readable, reading, run_first, run_len, run_start, scan, scan_from, turned, walk,
    Finding, Head, Probe, Stop,
};
use vstd::prelude::*;

verus! {

/// Whether the bytes of `block` from `at` on are records that verify, one
/// after another up to `tail`, and erased from there on.
pub open spec fn clean_from(block: Seq<u8>, at: int, tail: int) -> bool
    decreases tail - at,
{
    if at < 0 || at > tail || tail > block.len() {
        false
    } else if at == tail {
        erased(block.skip(tail))
    } else {
        let rest = block.skip(at);
        &&& verified(rest) is Some
        &&& at + claimed_len(rest)->0 <= tail
        &&& clean_from(block, at + claimed_len(rest)->0, tail)
    }
}

/// Whether `block` holds records up to `tail` and nothing past them.
pub open spec fn clean(block: Seq<u8>, tail: int) -> bool {
    clean_from(block, 0, tail)
}

/// A clean block scans to its tail, with nothing failed and nothing closed.
pub proof fn lemma_clean_scans(block: Seq<u8>, at: int, tail: int)
    requires
        clean_from(block, at, tail),
    ensures
        ({
            let found = scan_from(block, at, at, block.len() as int);
            &&& found.tail == tail
            &&& !found.closed
            &&& found.failed == 0
        }),
    decreases tail - at,
{
    let reach = block.len() as int;
    if at < tail {
        let rest = block.skip(at);
        let end = at + claimed_len(rest)->0;
        assert(walk(block, at, reach).stop == (Stop::Record { at, end, entry: verified(rest)->0 }));
        lemma_clean_scans(block, end, tail);
    } else if at < reach {
        let rest = block.skip(at);
        assert(rest[0] == 0xFF);
        assert(erased_head(rest));
        assert(verified(rest) is None);
        assert(walk(block, at, reach).stop == Stop::Tail);
    }
}

/// A record programmed over erased bytes is that record.
proof fn lemma_over_erased(block: Seq<u8>, tail: int, record: Seq<u8>)
    requires
        0 <= tail,
        tail + record.len() <= block.len(),
        erased(block.skip(tail)),
    ensures
        programmed(block, tail, record).skip(tail) =~= record + block.skip(
            tail + record.len() as int,
        ),
{
    let written = programmed(block, tail, record);
    assert forall|i: int| 0 <= i < record.len() implies written.skip(tail)[i] == record[i] by {
        let byte = record[i];
        assert(block.skip(tail)[i] == 0xFF);
        assert(0xFFu8 & byte == byte) by (bit_vector);
    }
}

/// Appending to a clean block adds the record at the end and leaves it clean.
pub proof fn lemma_append_clean(
    block: Seq<u8>,
    at: int,
    tail: int,
    seq: u64,
    class: Class,
    payload: Seq<u8>,
)
    requires
        clean_from(block, at, tail),
        seq > 0,
        payload.len() <= MAX_PAYLOAD,
        tail + OVERHEAD + payload.len() <= block.len(),
    ensures
        ({
            let record = image(seq, class, payload);
            let left = programmed(block, tail, record);
            let reach = block.len() as int;
            &&& clean_from(left, at, tail + record.len())
            &&& scan_from(left, at, at, reach).entries == scan_from(
                block,
                at,
                at,
                reach,
            ).entries.push(Entry { seq, class, payload })
        }),
    decreases tail - at,
{
    let record = image(seq, class, payload);
    let left = programmed(block, tail, record);
    let reach = block.len() as int;
    let entry = Entry { seq, class, payload };
    lemma_image_len(
        seq,
        class,
        payload,
        crate::record::crc_of(crate::record::covered_bytes(seq, class, payload)),
    );
    let end = tail + record.len() as int;
    if at == tail {
        lemma_over_erased(block, tail, record);
        law_a_framed_record_reads_back(seq, class, payload, block.skip(end));
        assert(left.skip(tail) =~= record + block.skip(end));
        assert(left.skip(end) =~= block.skip(end));
        assert(erased(left.skip(end))) by {
            assert forall|i: int| 0 <= i < left.skip(end).len() implies left.skip(end)[i]
                == 0xFF by {
                assert(block.skip(tail)[i + record.len() as int] == 0xFF);
            }
        }
        assert(walk(left, at, reach).stop == (Stop::Record { at, end, entry }));
        assert(clean_from(left, end, end));
        lemma_clean_scans(left, end, end);
        lemma_clean_scans(block, at, tail);
        assert(scan_from(block, at, at, reach).entries =~= Seq::<Entry>::empty()) by {
            let rest = block.skip(at);
            assert(rest[0] == 0xFF);
            assert(erased_head(rest));
            assert(verified(rest) is None);
        }
        assert(scan_from(left, end, end, reach).entries =~= Seq::<Entry>::empty()) by {
            if end < reach {
                let rest = left.skip(end);
                assert(rest[0] == 0xFF);
                assert(erased_head(rest));
                assert(verified(rest) is None);
            }
        }
        assert(scan_from(left, at, at, reach).entries =~= seq![entry]);
        assert(scan_from(block, at, at, reach).entries.push(entry) =~= seq![entry]);
    } else {
        let rest = block.skip(at);
        let over = left.skip(at);
        let own = claimed_len(rest)->0 as int;
        assert(rest.subrange(0, own) =~= over.subrange(0, own));
        law_only_the_records_own_bytes_matter(rest, over);
        lemma_append_clean(block, at + own, tail, seq, class, payload);
        let first = verified(rest)->0;
        assert(walk(block, at, reach).stop == (Stop::Record { at, end: at + own, entry: first }));
        assert(walk(left, at, reach).stop == (Stop::Record { at, end: at + own, entry: first }));
        let before = scan_from(block, at + own, at + own, reach).entries;
        assert((seq![first] + before).push(entry) =~= seq![first] + before.push(entry));
    }
}

/// What is appended reads back: a record programmed at the tail of a clean
/// block is found there by a scan, after every record that was there before,
/// and the block is left clean.
pub proof fn law_what_is_appended_is_found(
    block: Seq<u8>,
    tail: int,
    seq: u64,
    class: Class,
    payload: Seq<u8>,
)
    requires
        clean(block, tail),
        seq > 0,
        payload.len() <= MAX_PAYLOAD,
        tail + OVERHEAD + payload.len() <= block.len(),
    ensures
        ({
            let record = image(seq, class, payload);
            let left = programmed(block, tail, record);
            &&& clean(left, tail + record.len())
            &&& scan(left).entries == scan(block).entries.push(Entry { seq, class, payload })
            &&& scan(left).tail == tail + record.len()
            &&& !scan(left).closed
            &&& scan(left).failed == 0
        }),
{
    lemma_append_clean(block, 0, tail, seq, class, payload);
    lemma_clean_scans(
        programmed(block, tail, image(seq, class, payload)),
        0,
        tail + image(seq, class, payload).len(),
    );
}

/// A torn write loses nothing before it: whatever a program cut short leaves
/// past the tail of a clean block, every record before the tail is still
/// found, in order.
pub proof fn law_a_torn_write_loses_nothing(block: Seq<u8>, at: int, tail: int, torn: Seq<u8>)
    requires
        clean_from(block, at, tail),
        same_outside(torn, block, tail, block.len() as int),
    ensures
        ({
            let reach = block.len() as int;
            let before = scan_from(block, at, at, reach).entries;
            let left = scan_from(torn, at, at, reach).entries;
            &&& before.len() <= left.len()
            &&& left.take(before.len() as int) == before
        }),
    decreases tail - at,
{
    let reach = block.len() as int;
    if at < tail {
        let rest = block.skip(at);
        let over = torn.skip(at);
        let own = claimed_len(rest)->0 as int;
        assert(rest.subrange(0, own) =~= over.subrange(0, own));
        law_only_the_records_own_bytes_matter(rest, over);
        law_a_torn_write_loses_nothing(block, at + own, tail, torn);
        let first = verified(rest)->0;
        assert(walk(block, at, reach).stop == (Stop::Record { at, end: at + own, entry: first }));
        assert(walk(torn, at, reach).stop == (Stop::Record { at, end: at + own, entry: first }));
        let before = scan_from(block, at + own, at + own, reach).entries;
        let left = scan_from(torn, at + own, at + own, reach).entries;
        assert((seq![first] + left).take(before.len() as int + 1) =~= seq![first] + left.take(
            before.len() as int,
        ));
    } else {
        lemma_nothing_past_erased(block, at, reach);
        assert(scan_from(torn, at, at, reach).entries.take(0) =~= Seq::<Entry>::empty());
    }
}

/// Nothing is found from erased bytes on.
proof fn lemma_nothing_past_erased(block: Seq<u8>, at: int, reach: int)
    requires
        0 <= at,
        reach == block.len(),
        at <= reach,
        erased(block.skip(at)),
    ensures
        scan_from(block, at, at, reach).entries == Seq::<Entry>::empty(),
{
    if at < reach {
        let rest = block.skip(at);
        assert(rest[0] == 0xFF);
        assert(erased_head(rest));
        assert(verified(rest) is None);
    }
}

/// The last block a read walks is the head's.
proof fn lemma_run_ends_at_head(blocks: Seq<Seq<u8>>, head: int)
    requires
        blocks.len() >= 1,
        0 <= head < blocks.len(),
    ensures
        0 <= run_first(blocks, head) < blocks.len(),
        1 <= run_len(blocks, head) <= blocks.len(),
        ahead(run_first(blocks, head), run_len(blocks, head) - 1, blocks.len() as int) == head,
{
    let count = blocks.len() as int;
    lemma_run_start(blocks, after(after(head, count), count), blocks.len());
    let first = run_first(blocks, head);
    let apart = (head + count - first) % count;
    if head >= first {
        assert(apart == head - first) by (nonlinear_arith)
            requires
                apart == (head + count - first) % count,
                0 <= first <= head < count,
        ;
        assert((first + apart) % count == head) by (nonlinear_arith)
            requires
                first + apart == head,
                0 <= head < count,
        ;
    } else {
        assert(apart == head + count - first) by (nonlinear_arith)
            requires
                apart == (head + count - first) % count,
                0 <= head < first < count,
        ;
        assert((first + apart) % count == head) by (nonlinear_arith)
            requires
                first + apart == head + count,
                0 <= head < count,
        ;
    }
}

/// The run starts in the ring.
proof fn lemma_run_start(blocks: Seq<Seq<u8>>, block: int, turns: nat)
    requires
        blocks.len() >= 1,
        0 <= block < blocks.len(),
    ensures
        0 <= run_start(blocks, block, turns) < blocks.len(),
    decreases turns,
{
    if turns > 0 && !(probe(blocks[block]) is Records) {
        lemma_run_start(blocks, after(block, blocks.len() as int), (turns - 1) as nat);
    }
}

/// Halving the run stays inside it.
proof fn lemma_bisect_run(
    blocks: Seq<Seq<u8>>,
    first: int,
    run: int,
    start: u64,
    lo: int,
    hi: int,
)
    requires
        0 <= lo < hi <= run,
    ensures
        lo <= bisect_run(blocks, first, run, start, lo, hi) < hi,
    decreases hi - lo,
{
    if hi - lo > 1 {
        let mid = lo + (hi - lo) / 2;
        if first_at(blocks, first, run, mid) matches Some(seq) && seq <= start {
            lemma_bisect_run(blocks, first, run, start, mid, hi);
        } else {
            lemma_bisect_run(blocks, first, run, start, lo, mid);
        }
    }
}

/// What the blocks of the run from the `k`-th on hold ends with what the last
/// of them holds.
proof fn lemma_readable_ends(blocks: Seq<Seq<u8>>, first: int, run: int, k: int, start: u64)
    requires
        0 <= k < run,
    ensures
        ({
            let last = at_or_after(
                scan(blocks[ahead(first, run - 1, blocks.len() as int)]).entries,
                start,
            );
            let all = readable(blocks, first, run, k, start);
            last.len() > 0 ==> all.len() > 0 && all.last() == last.last()
        }),
    decreases run - k,
{
    let here = at_or_after(scan(blocks[ahead(first, k, blocks.len() as int)]).entries, start);
    if k == run - 1 {
        assert(readable(blocks, first, run, run, start) =~= Seq::<Entry>::empty());
        assert(here + Seq::<Entry>::empty() =~= here);
    } else {
        lemma_readable_ends(blocks, first, run, k + 1, start);
    }
}

/// What a read gives back of a write: once record `seq` is programmed at the
/// head of a log whose head block is clean, a read from any `start` up to
/// `seq` ends with that record, exactly as it was written.
pub proof fn law_a_read_gives_back_the_write(
    blocks: Seq<Seq<u8>>,
    head: Head,
    class: Class,
    payload: Seq<u8>,
    start: u64,
)
    requires
        head.block < blocks.len(),
        clean(blocks[head.block as int], head.at as int),
        head.next_seq > 0,
        payload.len() <= MAX_PAYLOAD,
        head.at + OVERHEAD + payload.len() <= blocks[head.block as int].len(),
        start <= head.next_seq,
    ensures
        ({
            let record = image(head.next_seq, class, payload);
            let left = appended(blocks, head, record);
            let read = reading(left.blocks, head.block as int, start);
            &&& read.len() > 0
            &&& read.last() == (Entry { seq: head.next_seq, class, payload })
        }),
{
    let h = head.block as int;
    let record = image(head.next_seq, class, payload);
    let left = appended(blocks, head, record).blocks;
    let entry = Entry { seq: head.next_seq, class, payload };
    law_what_is_appended_is_found(blocks[h], head.at as int, head.next_seq, class, payload);
    let entries = scan(left[h]).entries;
    assert(entries.last() == entry);
    lemma_run_ends_at_head(left, h);
    let first = run_first(left, h);
    let run = run_len(left, h);
    lemma_bisect_run(left, first, run, start, 0, run);
    lemma_readable_ends(left, first, run, bisect_run(left, first, run, start, 0, run), start);
}

/// The first sequence a block holds.
pub open spec fn first_of(block: Seq<u8>) -> int {
    scan(block).entries[0].seq as int
}

/// One past the last sequence of a block whose sequences are consecutive.
pub open spec fn end_of(block: Seq<u8>) -> int {
    first_of(block) + scan(block).entries.len()
}

/// Whether records have consecutive sequences.
pub open spec fn consecutive(entries: Seq<Entry>) -> bool {
    forall|i: int|
        0 <= i < entries.len() ==> (#[trigger] entries[i]).seq == entries[0].seq + i
}

/// Whether a block holds records with consecutive sequences and nothing else.
pub open spec fn page(block: Seq<u8>) -> bool {
    let found = scan(block);
    &&& clean(block, found.tail)
    &&& found.entries.len() > 0
    &&& found.entries[0].seq >= 1
    &&& consecutive(found.entries)
}

/// How many blocks `k` is behind the head's in a ring of `count`.
pub open spec fn behind(k: int, head: int, count: int) -> int {
    if k <= head {
        head - k
    } else {
        head - k + count
    }
}

/// The block `d` behind the head's in a ring of `count`.
pub open spec fn back(head: int, d: int, count: int) -> int {
    if d <= head {
        head - d
    } else {
        head - d + count
    }
}

/// Whether block `k` goes on where the block before it ends.
pub open spec fn goes_on(blocks: Seq<Seq<u8>>, k: int) -> bool {
    first_of(blocks[k]) == end_of(blocks[back(k, 1, blocks.len() as int)])
}

/// Whether a log is in the order appending leaves it in: the last `pages`
/// blocks up to the head's are pages, sequences run on from the oldest of them
/// to the head, every other block is erased, and the head says where the last
/// record ends.
pub open spec fn orderly(blocks: Seq<Seq<u8>>, head: Head, pages: int) -> bool {
    let count = blocks.len() as int;
    let h = head.block as int;
    &&& 2 <= count <= u32::MAX
    &&& h < count
    &&& 1 <= pages < count
    &&& forall|k: int|
        0 <= k < count ==> #[trigger] blocks[k].len() == blocks[0].len()
    &&& MAX_RECORD <= blocks[0].len() <= u32::MAX
    &&& forall|k: int|
        0 <= k < count ==> if behind(k, h, count) < pages {
            page(#[trigger] blocks[k])
        } else {
            blocks[k] == blank(blocks[0].len())
        }
    &&& forall|k: int|
        0 <= k < count && behind(k, h, count) < pages - 1 ==> #[trigger] goes_on(blocks, k)
    &&& head.at == scan(blocks[h]).tail
    &&& head.next_seq == end_of(blocks[h])
    &&& head.oldest == Some(first_of(blocks[back(h, pages - 1, count)]) as u64)
}

/// Every record a log whose head is in block `head` holds, oldest first.
pub open spec fn held(blocks: Seq<Seq<u8>>, head: int) -> Seq<Entry> {
    readable(blocks, run_first(blocks, head), run_len(blocks, head), 0, 0)
}

/// A page probes as records from its first sequence.
proof fn lemma_page_probes(block: Seq<u8>)
    requires
        page(block),
    ensures
        probe(block) == (Probe::Records { first: first_of(block) as u64 }),
{
    let rest = block.skip(0);
    assert(rest =~= block);
    let tail = scan(block).tail;
    if tail == 0 {
        lemma_nothing_past_erased(block, 0, block.len() as int);
    }
    assert(verified(rest) is Some);
    assert(walk(block, 0, block.len() as int).stop is Record);
    assert(walk(block, 0, probe_reach(block.len())).stop is Record);
}

/// An erased block probes erased.
proof fn lemma_blank_probes(len: nat)
    requires
        len >= HEADER,
    ensures
        probe(blank(len)) == Probe::Erased,
{
    let block = blank(len);
    let rest = block.skip(0);
    assert(rest[0] == 0xFF);
    assert(erased_head(rest));
    assert(verified(rest) is None);
}

/// Erasing an erased block changes nothing.
proof fn lemma_cleared_blank(blocks: Seq<Seq<u8>>, k: int)
    requires
        0 <= k < blocks.len(),
        blocks[k] == blank(blocks[k].len()),
    ensures
        cleared(blocks, k) == blocks,
{
    assert(cleared(blocks, k) =~= blocks);
}

/// The block `n` past `block` in a ring of `count`.
spec fn past(block: int, n: int, count: int) -> int {
    if block + n < count {
        block + n
    } else {
        block + n - count
    }
}

/// The run starts at the first block that holds records.
proof fn lemma_run_start_at(blocks: Seq<Seq<u8>>, block: int, turns: nat, n: int)
    requires
        0 <= block < blocks.len(),
        0 <= n < turns <= blocks.len(),
        forall|j: int|
            0 <= j < n ==> !(probe(blocks[#[trigger] past(block, j, blocks.len() as int)])
                is Records),
        probe(blocks[past(block, n, blocks.len() as int)]) is Records,
    ensures
        run_start(blocks, block, turns) == past(block, n, blocks.len() as int),
    decreases n,
{
    let count = blocks.len() as int;
    assert(past(block, 0, count) == block);
    if n > 0 {
        let next = after(block, count);
        assert forall|j: int| 0 <= j < n - 1 implies !(probe(
            blocks[#[trigger] past(next, j, count)],
        ) is Records) by {
            assert(past(next, j, count) == past(block, j + 1, count));
        }
        assert(past(next, n - 1, count) == past(block, n, count));
        lemma_run_start_at(blocks, next, (turns - 1) as nat, n - 1);
    }
}

/// Going on from a block of a ring, round past its end.
proof fn lemma_ahead(first: int, j: int, count: int)
    requires
        0 <= first < count,
        0 <= j <= count,
    ensures
        ahead(first, j, count) == past(first, j, count),
{
    let x = first + j;
    if x < count {
        assert(x % count == x) by (nonlinear_arith)
            requires
                0 <= x < count,
        ;
    } else {
        assert(x % count == x - count) by (nonlinear_arith)
            requires
                count <= x < 2 * count,
        ;
    }
}

/// The run of an orderly log is its pages.
proof fn lemma_run(blocks: Seq<Seq<u8>>, head: Head, pages: int)
    requires
        orderly(blocks, head, pages),
    ensures
        ({
            let count = blocks.len() as int;
            let h = head.block as int;
            let first = back(h, pages - 1, count);
            &&& run_first(blocks, h) == first
            &&& run_len(blocks, h) == pages
            &&& oldest(blocks, h) == head.oldest
            &&& forall|j: int|
                0 <= j < pages ==> #[trigger] ahead(first, j, count) == back(
                    h,
                    pages - 1 - j,
                    count,
                )
        }),
{
    let count = blocks.len() as int;
    let h = head.block as int;
    let first = back(h, pages - 1, count);
    let from = after(after(h, count), count);
    let n = count - 1 - pages;
    lemma_blank_probes(blocks[0].len());
    assert forall|j: int| 0 <= j < n implies !(probe(blocks[#[trigger] past(from, j, count)])
        is Records) by {
        let k = past(from, j, count);
        assert(behind(k, h, count) == count - 2 - j);
        assert(blocks[k] == blank(blocks[0].len()));
    }
    assert(past(from, n, count) == first);
    assert(behind(first, h, count) == pages - 1);
    assert(page(blocks[first]));
    lemma_page_probes(blocks[first]);
    lemma_run_start_at(blocks, from, blocks.len(), n);
    let apart = h + count - first;
    if first <= h {
        assert(apart % count == apart - count) by (nonlinear_arith)
            requires
                count <= apart < 2 * count,
        ;
    } else {
        assert(apart % count == apart) by (nonlinear_arith)
            requires
                0 <= apart < count,
        ;
    }
    assert forall|j: int| 0 <= j < pages implies #[trigger] ahead(first, j, count) == back(
        h,
        pages - 1 - j,
        count,
    ) by {
        lemma_ahead(first, j, count);
    }
}

/// Sequences climb from page to page: the one `d` behind the head starts later
/// than the one `e` behind it, for `d < e`.
proof fn lemma_climbs(blocks: Seq<Seq<u8>>, head: Head, pages: int, d: int, e: int)
    requires
        orderly(blocks, head, pages),
        0 <= d <= e < pages,
    ensures
        first_of(blocks[back(head.block as int, e, blocks.len() as int)]) + (e - d) <= first_of(
            blocks[back(head.block as int, d, blocks.len() as int)],
        ),
    decreases e - d,
{
    let count = blocks.len() as int;
    let h = head.block as int;
    if d < e {
        lemma_climbs(blocks, head, pages, d, e - 1);
        let k = back(h, e - 1, count);
        assert(behind(k, h, count) == e - 1);
        assert(goes_on(blocks, k));
        assert(back(k, 1, count) == back(h, e, count));
        assert(behind(back(h, e, count), h, count) == e);
        assert(page(blocks[back(h, e, count)]));
    }
}

/// Halving lands on the head when exactly the blocks up to it are no older
/// than the anchor.
proof fn lemma_bisect_lands(blocks: Seq<Seq<u8>>, first: u64, lo: int, hi: int, head: int)
    requires
        0 <= lo <= head < hi,
        forall|k: int| lo <= k < hi ==> (#[trigger] no_older(blocks, k, first) <==> k <= head),
    ensures
        bisect(blocks, first, lo, hi) == head,
    decreases hi - lo,
{
    if hi - lo > 1 {
        let mid = lo + (hi - lo) / 2;
        if no_older(blocks, mid, first) {
            lemma_bisect_lands(blocks, first, mid, hi, head);
        } else {
            lemma_bisect_lands(blocks, first, lo, mid, head);
        }
    }
}

/// The log is anchored on the first block that holds records.
proof fn lemma_anchor_at(blocks: Seq<Seq<u8>>, at: int, to: int)
    requires
        0 <= at <= to < blocks.len(),
        forall|k: int| at <= k < to ==> !(probe(#[trigger] blocks[k]) is Records),
        probe(blocks[to]) is Records,
    ensures
        anchor(blocks, at) == Some(to),
    decreases to - at,
{
    if at < to {
        assert(!(probe(blocks[at]) is Records));
        lemma_anchor_at(blocks, at + 1, to);
    }
}

/// The search of an orderly log starts from a block it anchors on and halves
/// to the head's block.
#[verifier::rlimit(40)]
#[verifier::spinoff_prover]
proof fn lemma_search_lands(blocks: Seq<Seq<u8>>, head: Head, pages: int)
    requires
        orderly(blocks, head, pages),
    ensures
        anchor(blocks, 0) is Some,
        ({
            let anchored = anchor(blocks, 0)->0;
            &&& 0 <= anchored <= head.block
            &&& probe(blocks[anchored]) is Records
            &&& bisect(
                blocks,
                probe(blocks[anchored])->first,
                anchored,
                blocks.len() as int,
            ) == head.block
        }),
{
    let count = blocks.len() as int;
    let h = head.block as int;
    let len = blocks[0].len();
    let anchored = if pages - 1 <= h {
        h - (pages - 1)
    } else {
        0
    };
    lemma_blank_probes(len);
    assert(behind(anchored, h, count) < pages);
    assert(page(blocks[anchored]));
    lemma_page_probes(blocks[anchored]);
    assert forall|k: int| 0 <= k < anchored implies !(probe(#[trigger] blocks[k]) is Records) by {
        assert(behind(k, h, count) >= pages);
        assert(blocks[k] == blank(len));
    }
    lemma_anchor_at(blocks, 0, anchored);
    let first = first_of(blocks[anchored]) as u64;
    assert forall|k: int| anchored <= k < count implies (#[trigger] no_older(blocks, k, first)
        <==> k <= h) by {
        let d = behind(k, h, count);
        if d < pages {
            assert(page(blocks[k]));
            lemma_page_probes(blocks[k]);
            assert(back(h, d, count) == k);
            assert(back(h, h - anchored, count) == anchored);
            if k <= h {
                lemma_climbs(blocks, head, pages, d, h - anchored);
            } else {
                lemma_climbs(blocks, head, pages, h - anchored, d);
            }
        } else {
            assert(blocks[k] == blank(len));
        }
    }
    lemma_bisect_lands(blocks, first, anchored, count, h);
}

/// A reboot finds the log where it was left: on the bytes of an orderly log
/// the search answers the head as it was, and erases and counts nothing.
#[verifier::rlimit(60)]
#[verifier::spinoff_prover]
pub proof fn law_a_reboot_finds_the_log(blocks: Seq<Seq<u8>>, head: Head, pages: int)
    requires
        orderly(blocks, head, pages),
    ensures
        finding(blocks) == (Finding { blocks, head, failed: 0, closed: false }),
        blocks[after(head.block as int, blocks.len() as int)] == blank(blocks[0].len()),
{
    let count = blocks.len() as int;
    let h = head.block as int;
    lemma_search_lands(blocks, head, pages);
    assert(behind(h, h, count) == 0);
    assert(page(blocks[h]));
    let scanned = scan(blocks[h]);
    lemma_clean_scans(blocks[h], 0, scanned.tail);
    assert(behind(after(h, count), h, count) == count - 1);
    assert(blocks[after(h, count)] == blank(blocks[0].len()));
    lemma_cleared_blank(blocks, after(h, count));
    lemma_run(blocks, head, pages);
    assert(scanned.entries.last().seq == first_of(blocks[h]) + scanned.entries.len() - 1);
    assert(finding(blocks) =~= Finding { blocks, head, failed: 0, closed: false });
}

/// Appending where there is room keeps a page a page, one record longer.
proof fn lemma_page_grows(block: Seq<u8>, seq: u64, class: Class, payload: Seq<u8>)
    requires
        page(block),
        seq == end_of(block),
        payload.len() <= MAX_PAYLOAD,
        scan(block).tail + OVERHEAD + payload.len() <= block.len(),
    ensures
        ({
            let left = programmed(block, scan(block).tail, image(seq, class, payload));
            &&& page(left)
            &&& first_of(left) == first_of(block)
            &&& end_of(left) == seq + 1
            &&& scan(left).entries == scan(block).entries.push(Entry { seq, class, payload })
            &&& scan(left).tail == scan(block).tail + image(seq, class, payload).len()
            &&& left.len() == block.len()
        }),
{
    law_what_is_appended_is_found(block, scan(block).tail, seq, class, payload);
    let left = programmed(block, scan(block).tail, image(seq, class, payload));
    let had = scan(block).entries;
    assert forall|i: int| 0 <= i < scan(left).entries.len() implies (#[trigger] scan(
        left,
    ).entries[i]).seq == scan(left).entries[0].seq + i by {
        if i < had.len() {
            assert(had[i].seq == had[0].seq + i);
        }
    }
}

/// The first record of an erased block makes it a page.
proof fn lemma_page_starts(len: nat, seq: u64, class: Class, payload: Seq<u8>)
    requires
        len >= MAX_RECORD,
        seq >= 1,
        payload.len() <= MAX_PAYLOAD,
    ensures
        ({
            let left = programmed(blank(len), 0, image(seq, class, payload));
            &&& page(left)
            &&& first_of(left) == seq
            &&& end_of(left) == seq + 1
            &&& scan(left).entries == seq![Entry { seq, class, payload }]
            &&& scan(left).tail == image(seq, class, payload).len()
            &&& left.len() == len
        }),
{
    let block = blank(len);
    let left = programmed(block, 0, image(seq, class, payload));
    assert(erased(block.skip(0)));
    law_what_is_appended_is_found(block, 0, seq, class, payload);
    lemma_nothing_past_erased(block, 0, len as int);
    assert(scan(left).entries =~= seq![Entry { seq, class, payload }]);
}

/// The head of an erased ring.
pub open spec fn fresh() -> Head {
    Head { block: 0, at: 0, next_seq: 1, oldest: None }
}

/// The first record of an erased ring leaves an orderly log.
pub proof fn law_the_first_record_is_orderly(
    blocks: Seq<Seq<u8>>,
    len: nat,
    class: Class,
    payload: Seq<u8>,
)
    requires
        2 <= blocks.len() <= u32::MAX,
        MAX_RECORD <= len <= u32::MAX,
        forall|k: int| 0 <= k < blocks.len() ==> #[trigger] blocks[k] == blank(len),
        payload.len() <= MAX_PAYLOAD,
    ensures
        ({
            let record = image(1, class, payload);
            let place = placed(blocks, fresh(), record.len() as int);
            let left = appended(place.blocks, place.head, record);
            &&& finding(blocks) == (Finding { blocks, head: fresh(), failed: 0, closed: false })
            &&& orderly(left.blocks, left.head, 1)
            &&& left.head.next_seq == 2
            &&& left.head.oldest == Some(1u64)
            &&& held(left.blocks, left.head.block as int) == seq![
                Entry { seq: 1, class, payload },
            ]
        }),
{
    let record = image(1, class, payload);
    lemma_blank_probes(len);
    lemma_all_blank(blocks, len, 0);
    assert(blocks[0] == blank(len) && blocks[1] == blank(len));
    lemma_cleared_blank(blocks, 0);
    lemma_cleared_blank(blocks, 1);
    lemma_page_starts(len, 1, class, payload);
    lemma_image_len(
        1,
        class,
        payload,
        crate::record::crc_of(crate::record::covered_bytes(1, class, payload)),
    );
    let left = appended(blocks, fresh(), record);
    assert(left.blocks[0] == programmed(blank(len), 0, record));
    assert forall|k: int| 0 <= k < blocks.len() implies #[trigger] left.blocks[k].len()
        == left.blocks[0].len() by {
        assert(blocks[k] == blank(len));
    }
    assert forall|k: int| 0 <= k < left.blocks.len() implies if behind(
        k,
        0,
        left.blocks.len() as int,
    ) < 1 {
        page(#[trigger] left.blocks[k])
    } else {
        left.blocks[k] == blank(len)
    } by {
        assert(blocks[k] == blank(len));
    }
    assert(orderly(left.blocks, left.head, 1));
    lemma_run(left.blocks, left.head, 1);
    lemma_all_at_or_after(scan(left.blocks[0]).entries);
    assert(readable(left.blocks, 0, 1, 1, 0) =~= Seq::<Entry>::empty());
    assert(ahead(0, 0, left.blocks.len() as int) == 0);
    assert(held(left.blocks, 0) =~= seq![Entry { seq: 1, class, payload }]);
}

/// Nothing anchors a log of erased blocks.
proof fn lemma_all_blank(blocks: Seq<Seq<u8>>, len: nat, at: int)
    requires
        0 <= at <= blocks.len(),
        len >= HEADER,
        forall|k: int| 0 <= k < blocks.len() ==> #[trigger] blocks[k] == blank(len),
    ensures
        anchor(blocks, at) is None,
    decreases blocks.len() - at,
{
    if at < blocks.len() {
        lemma_blank_probes(len);
        assert(blocks[at] == blank(len));
        lemma_all_blank(blocks, len, at + 1);
    }
}

/// Every record is at or after zero.
proof fn lemma_all_at_or_after(entries: Seq<Entry>)
    ensures
        at_or_after(entries, 0) == entries,
    decreases entries.len(),
{
    if entries.len() > 0 {
        lemma_all_at_or_after(entries.drop_last());
        assert(entries.drop_last().push(entries.last()) =~= entries);
    } else {
        assert(entries =~= Seq::<Entry>::empty());
    }
}

/// How many pages a log has once a record of `needs` bytes is appended: one
/// more when the page turns into a block that held none, and as many when the
/// turn erases the oldest.
pub open spec fn pages_after(blocks: Seq<Seq<u8>>, head: Head, pages: int, needs: int) -> int {
    if head.at + needs > blocks[head.block as int].len() && pages + 1 < blocks.len() {
        pages + 1
    } else {
        pages
    }
}

/// Appending to an orderly log leaves an orderly log, whether or not the page
/// turns for it: the next sequence is one more, and what is held is what was
/// held, but for the records of the block the turn erased, and then the record.
pub proof fn law_appending_keeps_the_log_orderly(
    blocks: Seq<Seq<u8>>,
    head: Head,
    pages: int,
    class: Class,
    payload: Seq<u8>,
)
    requires
        orderly(blocks, head, pages),
        payload.len() <= MAX_PAYLOAD,
        head.next_seq < u64::MAX,
    ensures
        ({
            let record = image(head.next_seq, class, payload);
            let place = placed(blocks, head, record.len() as int);
            let left = appended(place.blocks, place.head, record);
            &&& orderly(
                left.blocks,
                left.head,
                pages_after(blocks, head, pages, record.len() as int),
            )
            &&& left.head.next_seq == head.next_seq + 1
            &&& left.head.oldest->0 >= head.oldest->0
            &&& held(left.blocks, left.head.block as int) == held(
                blocks,
                head.block as int,
            ).skip(left.head.oldest->0 - head.oldest->0).push(
                Entry { seq: head.next_seq, class, payload },
            )
        }),
{
    let count = blocks.len() as int;
    let len = blocks[0].len();
    let h = head.block as int;
    let seq = head.next_seq;
    let record = image(seq, class, payload);
    let entry = Entry { seq, class, payload };
    lemma_image_len(
        seq,
        class,
        payload,
        crate::record::crc_of(crate::record::covered_bytes(seq, class, payload)),
    );
    assert(behind(h, h, count) == 0);
    assert(page(blocks[h]));
    if head.at + record.len() <= len {
        lemma_page_grows(blocks[h], seq, class, payload);
        let left = appended(blocks, head, record);
        lemma_clean_scans(blocks[h], 0, scan(blocks[h]).tail);
        assert forall|k: int| 0 <= k < count implies if behind(k, h, count) < pages {
            page(#[trigger] left.blocks[k])
        } else {
            left.blocks[k] == blank(len)
        } by {
            assert(k != h ==> left.blocks[k] == blocks[k]);
        }
        assert forall|k: int| 0 <= k < count && behind(k, h, count) < pages - 1 implies
            #[trigger] goes_on(left.blocks, k) by {
            assert(goes_on(blocks, k));
            assert(behind(back(k, 1, count), h, count) == behind(k, h, count) + 1);
        }
        assert(orderly(left.blocks, left.head, pages));
        let first = back(h, pages - 1, count);
        lemma_run(blocks, head, pages);
        lemma_run(left.blocks, left.head, pages);
        lemma_held_grows(blocks, left.blocks, first, pages, 0, h, entry);
        let had = held(blocks, h);
        assert(had.skip(0) =~= had);
    } else {
        lemma_page_turns(blocks, head, pages, class, payload);
    }
}

/// What is held grows by the record appended to the run's last block.
proof fn lemma_held_grows(
    blocks: Seq<Seq<u8>>,
    left: Seq<Seq<u8>>,
    first: int,
    run: int,
    j: int,
    head: int,
    entry: Entry,
)
    requires
        left.len() == blocks.len(),
        0 <= head < blocks.len(),
        0 <= j < run,
        forall|i: int|
            0 <= i < run ==> (#[trigger] ahead(first, i, blocks.len() as int) == head <==> i == run
                - 1),
        forall|i: int|
            0 <= i < run ==> 0 <= #[trigger] ahead(first, i, blocks.len() as int) < blocks.len(),
        forall|k: int| 0 <= k < blocks.len() && k != head ==> #[trigger] left[k] == blocks[k],
        scan(left[head]).entries == scan(blocks[head]).entries.push(entry),
    ensures
        readable(left, first, run, j, 0) == readable(blocks, first, run, j, 0).push(entry),
    decreases run - j,
{
    let k = ahead(first, j, blocks.len() as int);
    let here = scan(blocks[k]).entries;
    lemma_all_at_or_after(here);
    lemma_all_at_or_after(scan(left[k]).entries);
    if j == run - 1 {
        assert(readable(left, first, run, run, 0) =~= Seq::<Entry>::empty());
        assert(readable(blocks, first, run, run, 0) =~= Seq::<Entry>::empty());
        assert(readable(left, first, run, j, 0) =~= here.push(entry));
        assert(readable(blocks, first, run, j, 0) =~= here);
    } else {
        lemma_held_grows(blocks, left, first, run, j + 1, head, entry);
        let on = readable(blocks, first, run, j + 1, 0);
        assert(here + on.push(entry) =~= (here + on).push(entry));
    }
}

/// What is held once the page turned: what the pages that are left held, then
/// the record.
proof fn lemma_held_turns(
    blocks: Seq<Seq<u8>>,
    left: Seq<Seq<u8>>,
    first: int,
    pages: int,
    gone: int,
    j: int,
    next: int,
    entry: Entry,
)
    requires
        left.len() == blocks.len() >= 2,
        0 <= first < blocks.len(),
        0 <= gone <= 1,
        gone <= pages,
        pages < blocks.len(),
        0 <= j <= pages - gone,
        0 <= next < blocks.len(),
        ahead(past(first, gone, blocks.len() as int), pages - gone, blocks.len() as int) == next,
        forall|i: int|
            gone <= i < pages ==> left[#[trigger] ahead(first, i, blocks.len() as int)]
                == blocks[ahead(first, i, blocks.len() as int)],
        scan(left[next]).entries == seq![entry],
    ensures
        readable(left, past(first, gone, blocks.len() as int), pages - gone + 1, j, 0) == readable(
            blocks,
            first,
            pages,
            j + gone,
            0,
        ).push(entry),
    decreases pages - gone - j,
{
    let count = blocks.len() as int;
    let from = past(first, gone, count);
    let run = pages - gone + 1;
    if j == pages - gone {
        lemma_all_at_or_after(scan(left[next]).entries);
        assert(readable(left, from, run, run, 0) =~= Seq::<Entry>::empty());
        assert(readable(blocks, first, pages, pages, 0) =~= Seq::<Entry>::empty());
        assert(readable(left, from, run, j, 0) =~= seq![entry]);
        assert(Seq::<Entry>::empty().push(entry) =~= seq![entry]);
    } else {
        lemma_ahead(from, j, count);
        lemma_ahead(first, j + gone, count);
        assert(ahead(from, j, count) == ahead(first, j + gone, count));
        lemma_held_turns(blocks, left, first, pages, gone, j + 1, next, entry);
        let here = at_or_after(scan(blocks[ahead(first, j + gone, count)]).entries, 0);
        let on = readable(blocks, first, pages, j + 1 + gone, 0);
        assert(here + on.push(entry) =~= (here + on).push(entry));
    }
}

/// Appending after the page turns keeps the log orderly.
#[verifier::rlimit(80)]
#[verifier::spinoff_prover]
proof fn lemma_page_turns(
    blocks: Seq<Seq<u8>>,
    head: Head,
    pages: int,
    class: Class,
    payload: Seq<u8>,
)
    requires
        orderly(blocks, head, pages),
        payload.len() <= MAX_PAYLOAD,
        head.next_seq < u64::MAX,
        head.at + image(head.next_seq, class, payload).len() > blocks[0].len(),
    ensures
        ({
            let record = image(head.next_seq, class, payload);
            let place = turned(blocks, head);
            let left = appended(place.blocks, place.head, record);
            &&& orderly(
                left.blocks,
                left.head,
                pages_after(blocks, head, pages, record.len() as int),
            )
            &&& left.head.next_seq == head.next_seq + 1
            &&& left.head.oldest->0 >= head.oldest->0
            &&& held(left.blocks, left.head.block as int) == held(
                blocks,
                head.block as int,
            ).skip(left.head.oldest->0 - head.oldest->0).push(
                Entry { seq: head.next_seq, class, payload },
            )
        }),
{
    let count = blocks.len() as int;
    let len = blocks[0].len();
    let h = head.block as int;
    let next = after(h, count);
    let ahead_of = after(next, count);
    let seq = head.next_seq;
    let record = image(seq, class, payload);
    let entry = Entry { seq, class, payload };
    let now = if pages + 1 < count {
        pages + 1
    } else {
        pages
    };
    let gone = pages + 1 - now;
    let first = back(h, pages - 1, count);
    let place = turned(blocks, head);
    assert(behind(h, h, count) == 0);
    assert(page(blocks[h]));
    assert(behind(next, h, count) == count - 1);
    assert(blocks[next] == blank(len));
    lemma_cleared_blank(blocks, next);
    assert(blocks[ahead_of].len() == len);
    let bare = cleared(blocks, ahead_of);
    assert(place.blocks == bare);
    lemma_page_starts(len, seq, class, payload);
    lemma_image_len(
        seq,
        class,
        payload,
        crate::record::crc_of(crate::record::covered_bytes(seq, class, payload)),
    );
    let left = appended(bare, place.head, record);
    assert(left.blocks[next] == programmed(blank(len), 0, record));
    assert forall|k: int| 0 <= k < count implies #[trigger] left.blocks[k].len()
        == left.blocks[0].len() by {
        assert(blocks[k].len() == len);
    }
    assert(behind(ahead_of, h, count) == count - 2);
    assert forall|k: int| 0 <= k < count && k != next implies #[trigger] behind(k, next, count)
        == behind(k, h, count) + 1 by {}
    assert forall|k: int| 0 <= k < count implies if behind(k, next, count) < now {
        page(#[trigger] left.blocks[k])
    } else {
        left.blocks[k] == blank(len)
    } by {
        if k != next {
            assert(behind(k, next, count) == behind(k, h, count) + 1);
            if k != ahead_of {
                assert(left.blocks[k] == blocks[k]);
            }
        }
    }
    assert forall|k: int| 0 <= k < count && behind(k, next, count) < now - 1 implies
        #[trigger] goes_on(left.blocks, k) by {
        if k == next {
            assert(back(k, 1, count) == h);
            assert(h != ahead_of);
            assert(left.blocks[h] == blocks[h]);
        } else {
            assert(behind(k, h, count) < pages - 1);
            let b = back(k, 1, count);
            assert(behind(b, h, count) == behind(k, h, count) + 1);
            assert(left.blocks[k] == blocks[k]);
            assert(left.blocks[b] == blocks[b]);
            assert(goes_on(blocks, k));
        }
    }
    // The oldest after the turn is the first page's that is left, or none when
    // the head's block is the only one there is.
    lemma_blank_probes(len);
    lemma_turned_oldest(blocks, bare, head, pages, now);
    let start = back(next, now - 1, count);
    assert(left.head.oldest == Some(first_of(left.blocks[start]) as u64));
    assert(orderly(left.blocks, left.head, now));
    lemma_run(blocks, head, pages);
    lemma_run(left.blocks, left.head, now);
    assert(start == past(first, gone, count));
    lemma_ahead(start, pages - gone, count);
    assert forall|i: int| gone <= i < pages implies left.blocks[#[trigger] ahead(first, i, count)]
        == blocks[ahead(first, i, count)] by {
        let k = ahead(first, i, count);
        assert(k == back(h, pages - 1 - i, count));
        assert(behind(k, h, count) == pages - 1 - i);
    }
    lemma_held_turns(blocks, left.blocks, first, pages, gone, 0, next, entry);
    let had = held(blocks, h);
    if gone == 0 {
        assert(start == first);
        assert(left.blocks[start] == blocks[start]);
        assert(had.skip(0) =~= had);
    } else {
        let lost = scan(blocks[first]).entries;
        lemma_all_at_or_after(lost);
        assert(ahead(first, 0, count) == first);
        let rest = readable(blocks, first, pages, 1, 0);
        assert(had =~= lost + rest);
        assert(had.skip(lost.len() as int) =~= rest);
        assert(behind(first, h, count) == pages - 1);
        assert(page(blocks[first]));
        if pages > 1 {
            assert(behind(start, h, count) == pages - 2);
            assert(goes_on(blocks, start));
            assert(back(start, 1, count) == first);
            assert(left.blocks[start] == blocks[start]);
        } else {
            assert(first == h);
        }
    }
}

/// The oldest a turned page finds: the first of the pages that are left, and
/// none when the turn erased them all.
#[verifier::spinoff_prover]
proof fn lemma_turned_oldest(
    blocks: Seq<Seq<u8>>,
    bare: Seq<Seq<u8>>,
    head: Head,
    pages: int,
    now: int,
)
    requires
        orderly(blocks, head, pages),
        ({
            let count = blocks.len() as int;
            let next = after(head.block as int, count);
            &&& bare == cleared(blocks, after(next, count))
            &&& bare[next] == blank(blocks[0].len())
            &&& now == (if pages + 1 < count {
                pages + 1
            } else {
                pages
            })
        }),
    ensures
        ({
            let count = blocks.len() as int;
            let next = after(head.block as int, count);
            let start = back(next, now - 1, count);
            oldest(bare, next) == if now > 1 {
                Some(first_of(blocks[start]) as u64)
            } else {
                None
            }
        }),
{
    let count = blocks.len() as int;
    let h = head.block as int;
    let len = blocks[0].len();
    let next = after(h, count);
    let erased_ahead = after(next, count);
    let from = after(erased_ahead, count);
    let start = back(next, now - 1, count);
    let n = count - 1 - now;
    lemma_blank_probes(len);
    assert(blocks[erased_ahead].len() == len);
    assert(behind(erased_ahead, h, count) == count - 2);
    if now > 1 {
        assert forall|j: int| 0 <= j < n implies !(probe(bare[#[trigger] past(from, j, count)])
            is Records) by {
            let k = past(from, j, count);
            assert(behind(k, next, count) == count - 2 - j);
            assert(k != next);
            assert(behind(k, h, count) == count - 3 - j);
            assert(bare[k] == blank(len));
        }
        assert(past(from, n, count) == start);
        assert(start != next && start != erased_ahead);
        assert(behind(start, h, count) == now - 2);
        assert(page(blocks[start]));
        lemma_page_probes(blocks[start]);
        lemma_run_start_at(bare, from, bare.len(), n);
    } else {
        assert(count == 2);
        lemma_run_start(bare, from, bare.len());
        let at = run_first(bare, next);
        assert(at == next || at == erased_ahead);
        assert(bare[at] == blank(len));
    }
}

/// Of a page's records, those at or after `start` are all but the ones before
/// it.
proof fn lemma_at_or_after_page(entries: Seq<Entry>, start: u64)
    requires
        consecutive(entries),
        entries.len() > 0,
    ensures
        ({
            let n = if start <= entries[0].seq {
                0
            } else if start - entries[0].seq <= entries.len() {
                start - entries[0].seq
            } else {
                entries.len() as int
            };
            at_or_after(entries, start) == entries.skip(n)
        }),
    decreases entries.len(),
{
    let last = entries.last();
    let had = entries.drop_last();
    assert(last.seq == entries[0].seq + (entries.len() - 1));
    assert(at_or_after(Seq::<Entry>::empty(), start) =~= Seq::<Entry>::empty());
    if had.len() > 0 {
        assert forall|i: int| 0 <= i < had.len() implies (#[trigger] had[i]).seq == had[0].seq
            + i by {
            assert(had[i] == entries[i]);
        }
        lemma_at_or_after_page(had, start);
    } else {
        assert(had =~= Seq::<Entry>::empty());
    }
    let n = if start <= entries[0].seq {
        0
    } else if start - entries[0].seq <= entries.len() {
        start - entries[0].seq
    } else {
        entries.len() as int
    };
    assert(at_or_after(entries, start) =~= entries.skip(n));
}

/// The sequence the `j`-th page of an orderly log starts at, or the next one
/// past the last.
spec fn starts(blocks: Seq<Seq<u8>>, head: Head, pages: int, j: int) -> int {
    if j < pages {
        first_of(blocks[back(head.block as int, pages - 1 - j, blocks.len() as int)])
    } else {
        head.next_seq as int
    }
}

/// What the pages of an orderly log hold from the `j`-th on: every sequence
/// from its first to the last, once, in order; and at or after `start`, all but
/// the ones before it.
#[verifier::rlimit(40)]
#[verifier::spinoff_prover]
proof fn lemma_readable(blocks: Seq<Seq<u8>>, head: Head, pages: int, j: int, start: u64)
    requires
        orderly(blocks, head, pages),
        0 <= j <= pages,
    ensures
        ({
            let first = back(head.block as int, pages - 1, blocks.len() as int);
            let lo = starts(blocks, head, pages, j);
            let all = readable(blocks, first, pages, j, 0);
            let n = if start <= lo {
                0
            } else if start <= head.next_seq {
                start - lo
            } else {
                head.next_seq - lo
            };
            &&& lo <= head.next_seq
            &&& all.len() == head.next_seq - lo
            &&& forall|i: int| 0 <= i < all.len() ==> (#[trigger] all[i]).seq == lo + i
            &&& readable(blocks, first, pages, j, start) == all.skip(n)
        }),
    decreases pages - j,
{
    let count = blocks.len() as int;
    let h = head.block as int;
    let first = back(h, pages - 1, count);
    let lo = starts(blocks, head, pages, j);
    let all = readable(blocks, first, pages, j, 0);
    let some = readable(blocks, first, pages, j, start);
    if j == pages {
        assert(all =~= Seq::<Entry>::empty());
        assert(some =~= Seq::<Entry>::empty());
        assert(all.skip(0) =~= all);
    } else {
        lemma_run(blocks, head, pages);
        lemma_readable(blocks, head, pages, j + 1, start);
        let k = ahead(first, j, count);
        assert(k == back(h, pages - 1 - j, count));
        assert(behind(k, h, count) == pages - 1 - j);
        assert(page(blocks[k]));
        let here = scan(blocks[k]).entries;
        let on = readable(blocks, first, pages, j + 1, 0);
        let then = starts(blocks, head, pages, j + 1);
        if j + 1 < pages {
            let next = back(h, pages - 2 - j, count);
            assert(behind(next, h, count) == pages - 2 - j);
            assert(goes_on(blocks, next));
            assert(back(next, 1, count) == k);
        } else {
            assert(k == h);
        }
        assert(then == lo + here.len());
        lemma_all_at_or_after(here);
        lemma_at_or_after_page(here, start);
        assert(all == here + on);
        assert forall|i: int| 0 <= i < all.len() implies (#[trigger] all[i]).seq == lo + i by {
            if i < here.len() {
                assert(all[i] == here[i]);
            } else {
                assert(all[i] == on[i - here.len()]);
            }
        }
        let n = if start <= lo {
            0
        } else if start <= head.next_seq {
            start - lo
        } else {
            head.next_seq - lo
        };
        assert(some =~= all.skip(n));
    }
}

/// Halving the run of an orderly log lands on a page that starts no later than
/// `start`, or on the first.
proof fn lemma_bisect_run_lands(
    blocks: Seq<Seq<u8>>,
    head: Head,
    pages: int,
    start: u64,
    lo: int,
    hi: int,
)
    requires
        orderly(blocks, head, pages),
        0 <= lo < hi <= pages,
        lo == 0 || starts(blocks, head, pages, lo) <= start,
    ensures
        ({
            let first = back(head.block as int, pages - 1, blocks.len() as int);
            let k = bisect_run(blocks, first, pages, start, lo, hi);
            &&& lo <= k < hi
            &&& k == 0 || starts(blocks, head, pages, k) <= start
        }),
    decreases hi - lo,
{
    let count = blocks.len() as int;
    let h = head.block as int;
    let first = back(h, pages - 1, count);
    if hi - lo > 1 {
        let mid = lo + (hi - lo) / 2;
        lemma_run(blocks, head, pages);
        let k = ahead(first, mid, count);
        assert(k == back(h, pages - 1 - mid, count));
        assert(behind(k, h, count) == pages - 1 - mid);
        assert(page(blocks[k]));
        lemma_page_probes(blocks[k]);
        assert(first_at(blocks, first, pages, mid) == Some(first_of(blocks[k]) as u64));
        if first_of(blocks[k]) <= start {
            lemma_bisect_run_lands(blocks, head, pages, start, mid, hi);
        } else {
            lemma_bisect_run_lands(blocks, head, pages, start, lo, mid);
        }
    }
}

/// A read gives back every record held: from the oldest on, an orderly log
/// holds every sequence once, in order, and a read from any of them gives back
/// those from there on, each as it is held, up to the newest.
pub proof fn law_a_read_gives_back_what_is_held(
    blocks: Seq<Seq<u8>>,
    head: Head,
    pages: int,
    start: u64,
)
    requires
        orderly(blocks, head, pages),
        start >= head.oldest->0,
    ensures
        ({
            let all = held(blocks, head.block as int);
            let read = reading(blocks, head.block as int, start);
            &&& all.len() == head.next_seq - head.oldest->0
            &&& forall|i: int|
                0 <= i < all.len() ==> (#[trigger] all[i]).seq == head.oldest->0 + i
            &&& read.len() == if start <= head.next_seq {
                head.next_seq - start
            } else {
                0
            }
            &&& forall|i: int|
                0 <= i < read.len() ==> (#[trigger] read[i]).seq == start + i && read[i] == all[start
                    - head.oldest->0 + i]
        }),
{
    let count = blocks.len() as int;
    let h = head.block as int;
    let first = back(h, pages - 1, count);
    lemma_run(blocks, head, pages);
    lemma_bisect_run_lands(blocks, head, pages, start, 0, pages);
    let k = bisect_run(blocks, first, pages, start, 0, pages);
    lemma_readable(blocks, head, pages, 0, start);
    lemma_readable(blocks, head, pages, k, start);
    assert(behind(first, h, count) == pages - 1);
    assert(page(blocks[first]));
    lemma_held_from(blocks, first, pages, k);
    let all = held(blocks, h);
    let from = readable(blocks, first, pages, k, 0);
    let read = reading(blocks, h, start);
    let lo = starts(blocks, head, pages, k);
    assert forall|i: int| 0 <= i < read.len() implies (#[trigger] read[i]).seq == start + i
        && read[i] == all[start - head.oldest->0 + i] by {
        assert(read[i] == from[start - lo + i]);
    }
}

/// What the blocks from the `k`-th on hold is the end of what all of them hold.
proof fn lemma_held_from(blocks: Seq<Seq<u8>>, first: int, run: int, k: int)
    requires
        0 <= k <= run,
    ensures
        ({
            let all = readable(blocks, first, run, 0, 0);
            let on = readable(blocks, first, run, k, 0);
            &&& on.len() <= all.len()
            &&& on == all.skip(all.len() - on.len())
        }),
    decreases k,
{
    let all = readable(blocks, first, run, 0, 0);
    let on = readable(blocks, first, run, k, 0);
    if k == 0 {
        assert(all.skip(0) =~= all);
    } else {
        lemma_held_from(blocks, first, run, k - 1);
        let before = readable(blocks, first, run, k - 1, 0);
        let here = at_or_after(
            scan(blocks[ahead(first, k - 1, blocks.len() as int)]).entries,
            0,
        );
        assert(before == here + on);
        assert(on =~= before.skip(here.len() as int));
        assert(on =~= all.skip(all.len() - on.len()));
    }
}

/// An orderly log holds a record.
proof fn lemma_holds_one(blocks: Seq<Seq<u8>>, head: Head, pages: int)
    requires
        orderly(blocks, head, pages),
    ensures
        1 <= head.oldest->0 < head.next_seq,
{
    let count = blocks.len() as int;
    let h = head.block as int;
    let first = back(h, pages - 1, count);
    assert(behind(first, h, count) == pages - 1);
    assert(page(blocks[first]));
    assert(behind(h, h, count) == 0);
    assert(page(blocks[h]));
    assert(back(h, 0, count) == h);
    lemma_climbs(blocks, head, pages, 0, pages - 1);
}

/// Appending keeps the blocks' number and length.
proof fn lemma_lengths_kept(blocks: Seq<Seq<u8>>, head: Head, record: Seq<u8>, len: nat)
    requires
        blocks.len() >= 2,
        head.block < blocks.len(),
        forall|k: int| 0 <= k < blocks.len() ==> (#[trigger] blocks[k]).len() == len,
    ensures
        ({
            let place = placed(blocks, head, record.len() as int);
            let left = appended(place.blocks, place.head, record);
            &&& left.blocks.len() == blocks.len()
            &&& forall|k: int| 0 <= k < blocks.len() ==> (#[trigger] left.blocks[k]).len() == len
        }),
{
    let count = blocks.len() as int;
    let place = placed(blocks, head, record.len() as int);
    let next = after(head.block as int, count);
    let one = cleared(blocks, next);
    assert(blocks[next].len() == len);
    assert forall|k: int| 0 <= k < count implies (#[trigger] place.blocks[k]).len() == len by {
        assert(blocks[k].len() == len);
        assert(one[k].len() == len);
        assert(one[after(next, count)].len() == len);
    }
}

/// A log of appends: the blocks and the head once `records` were appended, one
/// after another, to an erased ring.
pub open spec fn logged(blocks: Seq<Seq<u8>>, records: Seq<(Class, Seq<u8>)>) -> Finding
    decreases records.len(),
{
    if records.len() == 0 {
        Finding { blocks, head: fresh(), failed: 0, closed: false }
    } else {
        let before = logged(blocks, records.drop_last());
        let record = image(before.head.next_seq, records.last().0, records.last().1);
        let place = placed(before.blocks, before.head, record.len() as int);
        appended(place.blocks, place.head, record)
    }
}

/// The records of a log of appends, as a read gives them back: numbered from
/// one.
pub open spec fn numbered(records: Seq<(Class, Seq<u8>)>) -> Seq<Entry> {
    Seq::new(
        records.len(),
        |i: int| Entry { seq: (i + 1) as u64, class: records[i].0, payload: records[i].1 },
    )
}

/// Whether a log is orderly and its blocks are of this length.
#[verifier::opaque]
spec fn tidy(log: Finding, pages: int, len: nat) -> bool {
    &&& orderly(log.blocks, log.head, pages)
    &&& log.blocks[0].len() == len
}

/// One more append to a tidy log.
proof fn lemma_one_more(log: Finding, pages: int, len: nat, class: Class, payload: Seq<u8>) -> (now:
    int)
    requires
        tidy(log, pages, len),
        payload.len() <= MAX_PAYLOAD,
        log.head.next_seq < u64::MAX,
    ensures
        ({
            let record = image(log.head.next_seq, class, payload);
            let place = placed(log.blocks, log.head, record.len() as int);
            let left = appended(place.blocks, place.head, record);
            &&& tidy(left, now, len)
            &&& left.blocks.len() == log.blocks.len()
            &&& left.head.next_seq == log.head.next_seq + 1
            &&& log.head.oldest->0 <= left.head.oldest->0 < left.head.next_seq
            &&& held(left.blocks, left.head.block as int) == held(
                log.blocks,
                log.head.block as int,
            ).skip(left.head.oldest->0 - log.head.oldest->0).push(
                Entry { seq: log.head.next_seq, class, payload },
            )
        }),
{
    reveal(tidy);
    let record = image(log.head.next_seq, class, payload);
    let place = placed(log.blocks, log.head, record.len() as int);
    let left = appended(place.blocks, place.head, record);
    let now = pages_after(log.blocks, log.head, pages, record.len() as int);
    law_appending_keeps_the_log_orderly(log.blocks, log.head, pages, class, payload);
    lemma_lengths_kept(log.blocks, log.head, record, len);
    lemma_holds_one(left.blocks, left.head, now);
    now
}

/// However many records were appended, the log is tidy.
proof fn lemma_appends(blocks: Seq<Seq<u8>>, len: nat, records: Seq<(Class, Seq<u8>)>) -> (pages:
    int)
    requires
        2 <= blocks.len() <= u32::MAX,
        MAX_RECORD <= len <= u32::MAX,
        forall|k: int| 0 <= k < blocks.len() ==> #[trigger] blocks[k] == blank(len),
        0 < records.len() < u64::MAX,
        forall|i: int| 0 <= i < records.len() ==> (#[trigger] records[i]).1.len() <= MAX_PAYLOAD,
    ensures
        ({
            let log = logged(blocks, records);
            &&& tidy(log, pages, len)
            &&& log.blocks.len() == blocks.len()
            &&& log.head.next_seq == records.len() + 1
            &&& 1 <= log.head.oldest->0 <= records.len()
            &&& held(log.blocks, log.head.block as int) == numbered(records).skip(
                log.head.oldest->0 - 1,
            )
        }),
    decreases records.len(),
{
    let log = logged(blocks, records);
    let (class, payload) = records.last();
    let entries = numbered(records);
    assert(payload.len() <= MAX_PAYLOAD);
    if records.len() == 1 {
        reveal(tidy);
        assert(records.drop_last() =~= Seq::<(Class, Seq<u8>)>::empty());
        assert(logged(blocks, records.drop_last()) == (Finding {
            blocks,
            head: fresh(),
            failed: 0,
            closed: false,
        }));
        law_the_first_record_is_orderly(blocks, len, class, payload);
        lemma_lengths_kept(blocks, fresh(), image(1, class, payload), len);
        assert(entries.skip(0) =~= seq![Entry { seq: 1, class, payload }]);
        1
    } else {
        let had = records.drop_last();
        let before = logged(blocks, had);
        assert forall|i: int| 0 <= i < had.len() implies (#[trigger] had[i]).1.len()
            <= MAX_PAYLOAD by {
            assert(had[i] == records[i]);
        }
        let pages = lemma_appends(blocks, len, had);
        let now = lemma_one_more(before, pages, len, class, payload);
        let entry = Entry { seq: before.head.next_seq, class, payload };
        let old = before.head.oldest->0;
        let new = log.head.oldest->0;
        assert(numbered(had).skip(old - 1).skip(new - old).push(entry) =~= entries.skip(new - 1));
        now
    }
}

/// However many records were appended to an erased ring, pages turned or not,
/// the log is orderly, the next sequence is one past their number, and the
/// records held are the last of them.
pub proof fn law_a_log_of_appends_is_orderly(
    blocks: Seq<Seq<u8>>,
    len: nat,
    records: Seq<(Class, Seq<u8>)>,
)
    requires
        2 <= blocks.len() <= u32::MAX,
        MAX_RECORD <= len <= u32::MAX,
        forall|k: int| 0 <= k < blocks.len() ==> #[trigger] blocks[k] == blank(len),
        0 < records.len() < u64::MAX,
        forall|i: int| 0 <= i < records.len() ==> (#[trigger] records[i]).1.len() <= MAX_PAYLOAD,
    ensures
        ({
            let log = logged(blocks, records);
            &&& exists|pages: int| #[trigger] orderly(log.blocks, log.head, pages)
            &&& log.blocks.len() == blocks.len()
            &&& log.blocks[0].len() == len
            &&& log.head.next_seq == records.len() + 1
            &&& 1 <= log.head.oldest->0 <= records.len()
            &&& held(log.blocks, log.head.block as int) == numbered(records).skip(
                log.head.oldest->0 - 1,
            )
        }),
{
    reveal(tidy);
    let log = logged(blocks, records);
    let pages = lemma_appends(blocks, len, records);
    assert(orderly(log.blocks, log.head, pages));
}

/// A reboot finds a log of appends where it was left, wrapped or not: the same
/// bytes, the same head and no damage; and the block after the head is erased.
pub proof fn law_a_reboot_finds_a_log_of_appends(
    blocks: Seq<Seq<u8>>,
    len: nat,
    records: Seq<(Class, Seq<u8>)>,
)
    requires
        2 <= blocks.len() <= u32::MAX,
        MAX_RECORD <= len <= u32::MAX,
        forall|k: int| 0 <= k < blocks.len() ==> #[trigger] blocks[k] == blank(len),
        records.len() < u64::MAX,
        forall|i: int| 0 <= i < records.len() ==> (#[trigger] records[i]).1.len() <= MAX_PAYLOAD,
    ensures
        ({
            let log = logged(blocks, records);
            &&& finding(log.blocks) == log
            &&& log.blocks[after(log.head.block as int, blocks.len() as int)] == blank(len)
        }),
{
    let log = logged(blocks, records);
    if records.len() == 0 {
        lemma_blank_probes(len);
        lemma_all_blank(blocks, len, 0);
        assert(blocks[0] == blank(len) && blocks[1] == blank(len));
        lemma_cleared_blank(blocks, 0);
        lemma_cleared_blank(blocks, 1);
    } else {
        law_a_log_of_appends_is_orderly(blocks, len, records);
        let pages = choose|pages: int| #[trigger] orderly(log.blocks, log.head, pages);
        law_a_reboot_finds_the_log(log.blocks, log.head, pages);
        assert(log.failed == 0 && !log.closed);
    }
}

/// Every record appended reads back, until its block is erased: a read from any
/// sequence still held gives back the records appended from there on, each as
/// it was written.
pub proof fn law_a_log_of_appends_reads_back(
    blocks: Seq<Seq<u8>>,
    len: nat,
    records: Seq<(Class, Seq<u8>)>,
    start: u64,
)
    requires
        2 <= blocks.len() <= u32::MAX,
        MAX_RECORD <= len <= u32::MAX,
        forall|k: int| 0 <= k < blocks.len() ==> #[trigger] blocks[k] == blank(len),
        0 < records.len() < u64::MAX,
        forall|i: int| 0 <= i < records.len() ==> (#[trigger] records[i]).1.len() <= MAX_PAYLOAD,
        logged(blocks, records).head.oldest->0 <= start <= records.len() + 1,
    ensures
        reading(
            logged(blocks, records).blocks,
            logged(blocks, records).head.block as int,
            start,
        ) == numbered(records).skip(start - 1),
{
    let log = logged(blocks, records);
    law_a_log_of_appends_is_orderly(blocks, len, records);
    let pages = choose|pages: int| #[trigger] orderly(log.blocks, log.head, pages);
    law_a_read_gives_back_what_is_held(log.blocks, log.head, pages, start);
    let read = reading(log.blocks, log.head.block as int, start);
    assert(read =~= numbered(records).skip(start - 1));
}

/// Whether a ring is what appending `records`, one after another, to an erased
/// ring of `blocks` leaves.
pub open spec fn is_log<N: NorPart>(
    ring: &Ring<N>,
    blocks: Seq<Seq<u8>>,
    records: Seq<(Class, Seq<u8>)>,
) -> bool {
    &&& ring.wf()
    &&& ring.fits()
    &&& ring.parts() == logged(blocks, records).blocks
    &&& ring.spec_head() == logged(blocks, records).head
}

/// The blocks of an erased part.
pub open spec fn erased_blocks(blocks: Seq<Seq<u8>>, len: nat) -> bool {
    &&& 2 <= blocks.len() <= u32::MAX
    &&& MAX_RECORD <= len <= u32::MAX
    &&& forall|k: int| 0 <= k < blocks.len() ==> #[trigger] blocks[k] == blank(len)
}

/// A ring opened on an erased part is an empty log: what opening such a part is
/// stated to find is the log of no appends.
pub proof fn law_an_erased_part_opens_empty<N: NorPart>(flash: N, from: u32, blocks: u32)
    requires
        2 <= blocks,
        MAX_RECORD <= flash.erase_bytes() <= u32::MAX,
        fits_on(flash.image().len(), from, block_len_of(flash.erase_bytes()), blocks),
        forall|i: int| 0 <= i < flash.image().len() ==> flash.image()[i] == 0xFF,
    ensures
        ({
            let len = block_len_of(flash.erase_bytes());
            let parts = parts_of(flash.image(), from as int, len as int, blocks as nat);
            &&& erased_blocks(parts, len as nat)
            &&& finding(parts) == logged(parts, Seq::empty())
        }),
{
    let len = block_len_of(flash.erase_bytes());
    let parts = parts_of(flash.image(), from as int, len as int, blocks as nat);
    assert forall|k: int| 0 <= k < parts.len() implies #[trigger] parts[k] == blank(
        len as nat,
    ) by {
        assert(0 <= k * len && k * len + len <= blocks * len) by (nonlinear_arith)
            requires
                0 <= k < blocks,
                0 <= len,
        ;
        assert(parts[k] =~= blank(len as nat));
    }
    law_a_reboot_finds_a_log_of_appends(parts, len as nat, Seq::empty());
}

/// An append that landed goes on from the log there was: a ring whose blocks and
/// head are what appending is stated to leave is the log of one record more.
pub proof fn law_an_append_goes_on_from_the_log<N: NorPart>(
    before: &Ring<N>,
    after: &Ring<N>,
    blocks: Seq<Seq<u8>>,
    records: Seq<(Class, Seq<u8>)>,
    class: Class,
    payload: Seq<u8>,
)
    requires
        is_log(before, blocks, records),
        after.wf(),
        after.same_part(before),
        ({
            let record = image(before.spec_head().next_seq, class, payload);
            let place = placed(before.parts(), before.spec_head(), record.len() as int);
            let left = appended(place.blocks, place.head, record);
            &&& after.parts() == left.blocks
            &&& after.spec_head() == left.head
        }),
    ensures
        is_log(after, blocks, records.push((class, payload))),
{
    let more = records.push((class, payload));
    assert(more.drop_last() =~= records);
    assert(more.last() == (class, payload));
}

/// A reboot finds the ring it left, wrapped or not: opening the part of a ring
/// that appends alone were made to, over the same blocks, is stated to find the
/// same blocks and the same head, and to count no damage; and the block after
/// the head is erased.
pub proof fn law_a_released_ring_opens_as_it_was<N: NorPart>(
    ring: &Ring<N>,
    blocks: Seq<Seq<u8>>,
    len: nat,
    records: Seq<(Class, Seq<u8>)>,
)
    requires
        erased_blocks(blocks, len),
        records.len() < u64::MAX,
        forall|i: int| 0 <= i < records.len() ==> (#[trigger] records[i]).1.len() <= MAX_PAYLOAD,
        is_log(ring, blocks, records),
    ensures
        ({
            let flash = ring.under();
            let size = block_len_of(flash.erase_bytes());
            let count = ring.parts().len() as u32;
            let found = finding(
                parts_of(flash.image(), ring.spec_from() as int, size as int, count as nat),
            );
            &&& flash.sound() == ring.sound()
            &&& fits_on(flash.image().len(), ring.spec_from(), size, count)
            &&& found.blocks == ring.parts()
            &&& found.head == ring.spec_head()
            &&& counted(Damage { failed_crc: 0, closed: 0 }, found) == (Damage {
                failed_crc: 0,
                closed: 0,
            })
            &&& ring.parts()[after(ring.spec_head().block as int, count as int)] == blank(len)
        }),
{
    ring.lemma_parts();
    law_a_reboot_finds_a_log_of_appends(blocks, len, records);
    lemma_log_clean(blocks, records);
    if records.len() > 0 {
        law_a_log_of_appends_is_orderly(blocks, len, records);
    }
}

/// A log of appends counts no damage.
proof fn lemma_log_clean(blocks: Seq<Seq<u8>>, records: Seq<(Class, Seq<u8>)>)
    ensures
        logged(blocks, records).failed == 0,
        !logged(blocks, records).closed,
{
}

/// Dropping the oldest block sheds the old end and nothing else: of an orderly
/// log of two pages or more, the head stays where it was and hands out the same
/// sequence next, the oldest climbs past the block that went, and the log is
/// orderly.
pub proof fn law_dropping_the_oldest_keeps_the_order(
    blocks: Seq<Seq<u8>>,
    head: Head,
    pages: int,
)
    requires
        orderly(blocks, head, pages),
        pages >= 2,
    ensures
        ({
            let first = run_first(blocks, head.block as int);
            let left = finding(cleared(blocks, first));
            let lost = scan(blocks[first]).entries.len();
            &&& left.blocks == cleared(blocks, first)
            &&& left.head == (Head {
                oldest: Some((head.oldest->0 + lost) as u64),
                ..head
            })
            &&& lost > 0
            &&& left.head.oldest->0 > head.oldest->0
            &&& left.failed == 0
            &&& !left.closed
            &&& orderly(left.blocks, left.head, pages - 1)
        }),
{
    let count = blocks.len() as int;
    let h = head.block as int;
    let len = blocks[0].len();
    let first = back(h, pages - 1, count);
    let second = back(h, pages - 2, count);
    lemma_run(blocks, head, pages);
    assert(behind(first, h, count) == pages - 1);
    assert(behind(second, h, count) == pages - 2);
    assert(page(blocks[first]));
    assert(page(blocks[second]));
    assert(goes_on(blocks, second));
    assert(back(second, 1, count) == first);
    let bare = cleared(blocks, first);
    let lost = scan(blocks[first]).entries.len();
    lemma_climbs(blocks, head, pages, 0, pages - 2);
    lemma_climbs(blocks, head, pages, pages - 2, pages - 1);
    assert(behind(h, h, count) == 0);
    assert(page(blocks[h]));
    let now = Head { oldest: Some((head.oldest->0 + lost) as u64), ..head };
    assert(first_of(blocks[second]) == head.oldest->0 + lost);
    assert forall|k: int| 0 <= k < count implies #[trigger] bare[k].len() == bare[0].len() by {
        assert(blocks[k].len() == len);
        assert(blocks[first].len() == len);
    }
    assert forall|k: int| 0 <= k < count implies if behind(k, h, count) < pages - 1 {
        page(#[trigger] bare[k])
    } else {
        bare[k] == blank(bare[0].len())
    } by {
        assert(blocks[k].len() == len);
        assert(blocks[first].len() == len);
        if behind(k, h, count) == pages - 1 {
            assert(k == first);
        } else {
            assert(bare[k] == blocks[k]);
        }
    }
    assert forall|k: int| 0 <= k < count && behind(k, h, count) < pages - 2 implies
        #[trigger] goes_on(bare, k) by {
        assert(goes_on(blocks, k));
        let b = back(k, 1, count);
        assert(behind(b, h, count) == behind(k, h, count) + 1);
        assert(bare[k] == blocks[k]);
        assert(bare[b] == blocks[b]);
    }
    assert(bare[second] == blocks[second]);
    assert(bare[h] == blocks[h]);
    assert(orderly(bare, now, pages - 1));
    law_a_reboot_finds_the_log(bare, now, pages - 1);
}

/// Dropping the only block of records leaves a fresh ring: the next record is
/// one again.
pub proof fn law_dropping_the_only_page_starts_over(blocks: Seq<Seq<u8>>, head: Head)
    requires
        orderly(blocks, head, 1),
    ensures
        ({
            let first = run_first(blocks, head.block as int);
            let left = finding(cleared(blocks, first));
            &&& left.blocks == cleared(blocks, first)
            &&& left.head == fresh()
            &&& left.failed == 0
            &&& !left.closed
        }),
{
    let count = blocks.len() as int;
    let h = head.block as int;
    let len = blocks[0].len();
    lemma_run(blocks, head, 1);
    let bare = cleared(blocks, h);
    assert forall|k: int| 0 <= k < bare.len() implies #[trigger] bare[k] == blank(len) by {
        assert(blocks[k].len() == len);
        if k != h {
            assert(behind(k, h, count) >= 1);
            assert(blocks[k] == blank(len));
        }
    }
    lemma_blank_probes(len);
    lemma_all_blank(bare, len, 0);
    assert(bare[0] == blank(len) && bare[1] == blank(len));
    lemma_cleared_blank(bare, 0);
    lemma_cleared_blank(bare, 1);
}

/// A cut before the magic lands is not counted as damage: when a write cut short
/// leaves the two bytes of its magic erased and nothing past them that reads as
/// one, every record before it is still found, none is counted as failed, and
/// the block is closed exactly when a header's worth of it is not erased.
pub proof fn law_a_cut_before_the_magic_is_no_damage(
    block: Seq<u8>,
    at: int,
    tail: int,
    torn: Seq<u8>,
)
    requires
        clean_from(block, at, tail),
        same_outside(torn, block, tail, block.len() as int),
        tail + 2 <= block.len(),
        torn[tail] == 0xFF,
        torn[tail + 1] == 0xFF,
        next_magic(torn, tail + 1, block.len() as int) is None,
    ensures
        ({
            let reach = block.len() as int;
            let left = scan_from(torn, at, at, reach);
            &&& left.entries == scan_from(block, at, at, reach).entries
            &&& left.tail == tail
            &&& left.failed == 0
            &&& left.closed == !erased_head(torn.skip(tail))
        }),
    decreases tail - at,
{
    let reach = block.len() as int;
    if at < tail {
        let rest = block.skip(at);
        let over = torn.skip(at);
        let own = claimed_len(rest)->0 as int;
        assert(rest.subrange(0, own) =~= over.subrange(0, own));
        law_only_the_records_own_bytes_matter(rest, over);
        law_a_cut_before_the_magic_is_no_damage(block, at + own, tail, torn);
        let first = verified(rest)->0;
        assert(walk(block, at, reach).stop == (Stop::Record { at, end: at + own, entry: first }));
        assert(walk(torn, at, reach).stop == (Stop::Record { at, end: at + own, entry: first }));
    } else {
        lemma_nothing_past_erased(block, at, reach);
        let over = torn.skip(tail);
        assert(over[0] == 0xFF);
        assert(verified(over) is None);
        assert(Header::spec_parse(over) is None);
        assert(scan_from(torn, at, at, reach).entries =~= Seq::<Entry>::empty());
    }
}

/// Blocks that probe alike are searched alike.
proof fn lemma_same_search(a: Seq<Seq<u8>>, b: Seq<Seq<u8>>, at: int)
    requires
        a.len() == b.len(),
        0 <= at <= a.len(),
        forall|k: int| 0 <= k < a.len() ==> probe(#[trigger] a[k]) == probe(b[k]),
    ensures
        anchor(a, at) == anchor(b, at),
        nearest(a, at) == nearest(b, at),
    decreases a.len() - at,
{
    if at < a.len() {
        assert(probe(a[at]) == probe(b[at]));
        lemma_same_search(a, b, at + 1);
    }
}

/// Blocks that probe alike are halved alike.
proof fn lemma_same_halving(a: Seq<Seq<u8>>, b: Seq<Seq<u8>>, first: u64, lo: int, hi: int)
    requires
        a.len() == b.len(),
        0 <= lo <= hi <= a.len(),
        forall|k: int| 0 <= k < a.len() ==> probe(#[trigger] a[k]) == probe(b[k]),
    ensures
        bisect(a, first, lo, hi) == bisect(b, first, lo, hi),
    decreases hi - lo,
{
    if hi - lo > 1 {
        let mid = lo + (hi - lo) / 2;
        lemma_same_search(a, b, mid);
        lemma_same_halving(a, b, first, mid, hi);
        lemma_same_halving(a, b, first, lo, mid);
    }
}

/// A torn write closes its block and costs the log nothing else: when a write
/// cut short leaves residue past the tail of the head's block and no record in
/// it, a reboot counts the block closed, goes on at the start of the next one,
/// and hands out the sequence the torn record would have had.
pub proof fn law_a_torn_write_closes_its_block(
    blocks: Seq<Seq<u8>>,
    head: Head,
    pages: int,
    torn: Seq<u8>,
)
    requires
        orderly(blocks, head, pages),
        same_outside(
            torn,
            blocks[head.block as int],
            head.at as int,
            blocks[head.block as int].len() as int,
        ),
        scan(torn).entries == scan(blocks[head.block as int]).entries,
        scan(torn).closed,
    ensures
        ({
            let found = finding(blocks.update(head.block as int, torn));
            &&& found.closed
            &&& found.failed == scan(torn).failed
            &&& found.head.block == after(head.block as int, blocks.len() as int)
            &&& found.head.at == 0
            &&& found.head.next_seq == head.next_seq
        }),
{
    let count = blocks.len() as int;
    let h = head.block as int;
    let left = blocks.update(h, torn);
    let whole = blocks[h];
    assert(page(whole));
    lemma_page_probes(whole);
    let rest = whole.skip(0);
    let over = torn.skip(0);
    assert(rest =~= whole);
    assert(over =~= torn);
    if head.at == 0 {
        lemma_nothing_past_erased(whole, 0, whole.len() as int);
    }
    let own = claimed_len(rest)->0 as int;
    assert(rest.subrange(0, own) =~= over.subrange(0, own));
    law_only_the_records_own_bytes_matter(rest, over);
    assert(probe(torn) == probe(whole));
    assert forall|k: int| 0 <= k < left.len() implies probe(#[trigger] left[k]) == probe(
        blocks[k],
    ) by {}
    lemma_search_lands(blocks, head, pages);
    let anchored = anchor(blocks, 0)->0;
    let first = probe(blocks[anchored])->first;
    lemma_same_search(left, blocks, 0);
    lemma_same_halving(left, blocks, first, anchored, count);
    let next = after(h, count);
    lemma_blank_probes(blocks[0].len());
    assert(blocks[next] == blank(blocks[0].len()));
    assert(left[next] == blocks[next]);
    assert(past_closed(left, h, left.len()) == next);
    let entries = scan(whole).entries;
    assert(entries.last().seq == entries[0].seq + (entries.len() - 1));
}

} // verus!
