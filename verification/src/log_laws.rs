//! What the log refuses and why, what it counts as damage, and what a read of
//! it shows.

use vstd::prelude::*;

use crate::nor::NorPart;
use crate::record::{verified, Class, Entry, Header, Unframed};
use crate::ring::{
    block_len_of, counted, fits_on, had_enough, parts_of, read_start, shown, stopped, unappended,
    unopened, Damage, LogPage, Ring, RingError, Visit, Wants,
};
use crate::ring_laws::{
    erased_blocks, is_log, law_a_log_of_appends_is_orderly, law_a_log_of_appends_reads_back,
    law_a_reboot_finds_a_log_of_appends, law_a_released_ring_opens_as_it_was,
    law_an_append_goes_on_from_the_log, law_an_erased_part_opens_empty, logged, numbered,
};
use crate::ring_model::{
    after, ahead, at_or_after, cleared, erased, erased_head, event_of, newest_stamp, next_magic,
    probe_reach, reading, scan, stamp, turned, walk, Finding, Head, Stop,
};

verus! {

/// A ring is opened on a part that writes byte by byte, erases in blocks of at
/// least the longest record, and gives it two blocks or more, with scratch for
/// one record; else it is refused for the first of these that fails.
pub proof fn law_a_ring_is_refused_for_its_reason<N: NorPart>(flash: N, blocks: u32, scratch: nat)
    requires
        scratch <= usize::MAX,
    ensures
        ({
            let why = unopened(flash, blocks, scratch);
            let coarse = flash.write_bytes() != 1;
            let small = flash.erase_bytes() < 273;
            &&& why == Some(RingError::<N::Refusal>::WriteSizeNotOne(flash.write_bytes()))
                <==> coarse
            &&& why == Some(RingError::<N::Refusal>::BlockTooSmall(flash.erase_bytes()))
                <==> !coarse && small
            &&& why == Some(RingError::<N::Refusal>::TooFewBlocks(blocks)) <==> !coarse && !small
                && blocks < 2
            &&& why == Some(RingError::<N::Refusal>::ScratchTooSmall(scratch as usize))
                <==> !coarse && !small && blocks >= 2 && scratch < 273
            &&& why is None <==> !coarse && !small && blocks >= 2 && scratch >= 273
        }),
{
}

/// An event is appended when a block holds it, there is scratch for one record
/// and its own sequence is the one the log gives next; else it is refused for
/// the first of these that fails.
pub proof fn law_an_event_is_refused_for_its_reason<N: NorPart>(
    erase: usize,
    next_seq: u64,
    payload: nat,
    event: Option<(u64, Option<u64>)>,
    scratch: nat,
)
    requires
        scratch <= usize::MAX,
        payload + 17 <= usize::MAX,
    ensures
        ({
            let why = unappended::<N>(erase, next_seq, payload, event, scratch);
            let long = payload + 17 > erase;
            let next = event is Some && (event->0).0 == next_seq;
            &&& why == Some(
                RingError::<N::Refusal>::Unframed(Unframed::PayloadTooLong(payload as usize)),
            ) <==> long
            &&& why == Some(RingError::<N::Refusal>::ScratchTooSmall(scratch as usize)) <==> !long
                && scratch < 273
            &&& why == Some(RingError::<N::Refusal>::NotTheNextEvent) <==> !long && scratch >= 273
                && !next
            &&& why is None <==> !long && scratch >= 273 && next
        }),
{
}

/// A read starts where it asks to, but never below the oldest record held, and
/// never at zero.
pub proof fn law_a_read_starts_no_lower_than_the_oldest(from: u64, oldest: u64)
    ensures
        read_start(from, oldest) >= from,
        read_start(from, oldest) >= oldest,
        read_start(from, oldest) >= 1,
        read_start(from, oldest) == from || read_start(from, oldest) == oldest || read_start(
            from,
            oldest,
        ) == 1,
        from >= oldest && from >= 1 ==> read_start(from, oldest) == from,
        from <= oldest && oldest >= 1 ==> read_start(from, oldest) == oldest,
{
}

/// What is at or after a sequence is every record of that sequence or a later
/// one, in order, and no other.
pub proof fn law_a_read_leaves_out_only_what_is_before(entries: Seq<Entry>, start: u64)
    ensures
        at_or_after(entries, start) == entries.filter(|entry: Entry| entry.seq >= start),
    decreases entries.len(),
{
    reveal(Seq::filter);
    if entries.len() > 0 {
        law_a_read_leaves_out_only_what_is_before(entries.drop_last(), start);
    }
}

/// A header that is there and whose record does not verify is counted as damage,
/// once, and the walk goes on past it; one that verifies is not.
pub proof fn law_a_record_that_does_not_verify_is_counted(block: Seq<u8>, at: int, reach: int)
    requires
        0 <= at < reach,
    ensures
        verified(block.skip(at)) matches Some(entry) ==> walk(block, at, reach).failed == 0 && (walk(
            block,
            at,
            reach,
        ).stop matches Stop::Record { at: here, entry: found, .. } && here == at && found == entry),
        verified(block.skip(at)) is None && Header::spec_parse(block.skip(at)) is Some
            && !erased_head(block.skip(at)) ==> walk(block, at, reach).failed >= 1,
        verified(block.skip(at)) is None && erased_head(block.skip(at)) ==> walk(
            block,
            at,
            reach,
        ).failed == 0 && walk(block, at, reach).stop is Tail,
{
}

/// Damage adds up: the records that failed and the blocks that were closed, up
/// to the most a count holds.
pub proof fn law_damage_adds_up(damage: Damage, found: Finding)
    ensures
        ({
            let after = counted(damage, found);
            &&& damage.failed_crc + found.failed <= u32::MAX ==> after.failed_crc
                == damage.failed_crc + found.failed
            &&& damage.failed_crc + found.failed > u32::MAX ==> after.failed_crc == u32::MAX
            &&& !found.closed ==> after.closed == damage.closed
            &&& found.closed && damage.closed < u32::MAX ==> after.closed == damage.closed + 1
            &&& damage.closed == u32::MAX ==> after.closed == u32::MAX
        }),
{
}

/// Whether a record is an event that carries a timestamp.
pub open spec fn stamped(entry: Entry) -> bool {
    event_of(entry.payload) is Some && (event_of(entry.payload)->0).1 is Some
}

/// The timestamp of records is that of the last of them that carries one, and
/// there is none only where none does.
pub proof fn law_the_last_timestamp_is_the_newest(entries: Seq<Entry>)
    ensures
        stamp(entries) is None <==> forall|i: int|
            0 <= i < entries.len() ==> !stamped(#[trigger] entries[i]),
        stamp(entries) matches Some(at) ==> exists|i: int|
            {
                &&& 0 <= i < entries.len()
                &&& stamped(#[trigger] entries[i])
                &&& (event_of(entries[i].payload)->0).1 == Some(at)
                &&& forall|j: int| i < j < entries.len() ==> !stamped(#[trigger] entries[j])
            },
    decreases entries.len(),
{
    if entries.len() > 0 {
        let front = entries.drop_last();
        let last = entries.len() - 1;
        law_the_last_timestamp_is_the_newest(front);
        assert forall|i: int| 0 <= i < front.len() implies front[i] == entries[i] by {}
        if stamped(entries.last()) {
            assert(stamped(entries[last]));
        } else if let Some(at) = stamp(front) {
            let i = choose|i: int|
                {
                    &&& 0 <= i < front.len()
                    &&& stamped(#[trigger] front[i])
                    &&& (event_of(front[i].payload)->0).1 == Some(at)
                    &&& forall|j: int| i < j < front.len() ==> !stamped(#[trigger] front[j])
                };
            assert(stamped(entries[i]));
            assert forall|j: int| i < j < entries.len() implies !stamped(#[trigger] entries[j]) by {
                if j < last {
                    assert(!stamped(front[j]));
                }
            }
        } else {
            assert forall|i: int| 0 <= i < entries.len() implies !stamped(#[trigger] entries[i]) by {
                if i < last {
                    assert(!stamped(front[i]));
                }
            }
        }
    }
}

/// The timestamp of the `b`-th block of a run.
#[verifier::opaque]
pub open spec fn block_stamp(blocks: Seq<Seq<u8>>, first: int, b: int) -> Option<u64> {
    stamp(scan(blocks[ahead(first, b, blocks.len() as int)]).entries)
}

/// One more block.
proof fn lemma_newest_step(blocks: Seq<Seq<u8>>, first: int, k: int)
    requires
        0 < k,
    ensures
        newest_stamp(blocks, first, k) == if block_stamp(blocks, first, k - 1) is Some {
            block_stamp(blocks, first, k - 1)
        } else {
            newest_stamp(blocks, first, k - 1)
        },
{
    reveal(block_stamp);
}

/// The newest timestamp of a run of blocks is that of the last block that has
/// one, and there is none only where no block does.
pub proof fn law_the_newest_block_gives_the_timestamp(blocks: Seq<Seq<u8>>, first: int, k: int)
    requires
        0 <= k,
    ensures
        newest_stamp(blocks, first, k) is None <==> forall|b: int|
            0 <= b < k ==> (#[trigger] block_stamp(blocks, first, b)) is None,
        newest_stamp(blocks, first, k) matches Some(at) ==> exists|b: int|
            {
                &&& 0 <= b < k
                &&& #[trigger] block_stamp(blocks, first, b) == Some(at)
                &&& forall|c: int|
                    b < c < k ==> (#[trigger] block_stamp(blocks, first, c)) is None
            },
    decreases k,
{
    if k > 0 {
        law_the_newest_block_gives_the_timestamp(blocks, first, k - 1);
        lemma_newest_step(blocks, first, k);
        let here = block_stamp(blocks, first, k - 1);
        if here is None {
            if let Some(at) = newest_stamp(blocks, first, k - 1) {
                let b = choose|b: int|
                    {
                        &&& 0 <= b < k - 1
                        &&& #[trigger] block_stamp(blocks, first, b) == Some(at)
                        &&& forall|c: int|
                            b < c < k - 1 ==> (#[trigger] block_stamp(blocks, first, c)) is None
                    };
                assert(block_stamp(blocks, first, b) == Some(at));
            }
        }
    }
}

/// A page takes the records offered from the first on, as many as it has room
/// for and all of them where it has room for more; the sequence to go on from is
/// one past the last it took, or where it started.
pub proof fn law_a_page_takes_what_it_has_room_for(
    all: Seq<Entry>,
    page: LogPage,
    start: u64,
    next: u64,
)
    requires
        page.room > 0,
        stopped(Seq::empty(), page.answers()),
        shown(
            all,
            Seq::empty(),
            page.seen(),
            start,
            next,
            had_enough(Seq::empty(), page.answers()),
        ),
    ensures
        page.room <= all.len() ==> page.seen() == all.take(page.room as int),
        page.room > all.len() ==> page.seen() == all,
        page.seen().len() == 0 ==> next == start,
        page.seen().len() > 0 && page.seen().last().seq < u64::MAX ==> next
            == page.seen().last().seq + 1,
{
    let seen = page.seen();
    let answers = page.answers();
    let none = Seq::<Entry>::empty();
    assert(seen =~= all.take(seen.len() as int)) by {
        assert(seen == none + all.take(seen.len() - 0));
        assert(none + all.take(seen.len() as int) =~= all.take(seen.len() as int));
    }
    assert(answers.len() == seen.len());
    if seen.len() > page.room {
        assert(answers[page.room - 1] is Enough);
        assert(answers[page.room - 1] is More);
    }
    if seen.len() < page.room {
        if seen.len() > 0 {
            assert(answers.last() == answers[seen.len() - 1]);
            assert(answers.last() is More);
        }
        assert(seen.len() == all.len());
        assert(all.take(all.len() as int) =~= all);
    }
    if seen.len() == all.len() {
        assert(all.take(all.len() as int) =~= all);
    }
    if seen.len() > 0 {
        assert(seen.last() == all[seen.len() - 1]);
    }
}

/// A ring opened on an erased part is the log of no records: a sound part that
/// a ring may be opened on always opens, nothing is counted as damage, and the
/// first record will be one.
pub proof fn law_an_erased_part_is_opened_as_an_empty_log<N: NorPart>(
    flash: N,
    from: u32,
    blocks: u32,
    scratch: &mut [u8],
    r: Result<Ring<N>, RingError<N::Refusal>>,
)
    requires
        call_ensures(Ring::<N>::open, (flash, from, blocks, scratch), r),
        flash.write_bytes() == 1,
        273 <= flash.erase_bytes() <= u32::MAX,
        2 <= blocks,
        old(scratch)@.len() >= 273,
        fits_on(flash.image().len(), from, block_len_of(flash.erase_bytes()), blocks),
        forall|i: int| 0 <= i < flash.image().len() ==> flash.image()[i] == 0xFF,
    ensures
        flash.sound() ==> r is Ok,
        r matches Ok(ring) ==> {
            let len = block_len_of(flash.erase_bytes());
            let parts = parts_of(flash.image(), from as int, len as int, blocks as nat);
            &&& is_log(&ring, parts, Seq::empty())
            &&& erased_blocks(parts, len as nat)
            &&& ring.spec_damage() == (Damage { failed_crc: 0, closed: 0 })
            &&& ring.spec_head().next_seq == 1
            &&& ring.spec_head().oldest is None
        },
{
    law_an_erased_part_opens_empty(flash, from, blocks);
}

/// An event appended to a log of records makes it the log of one record more,
/// under the next number; so whatever was appended stays, and in its order.
pub proof fn law_an_event_appended_is_the_next_of_the_log<N: NorPart>(
    ring: &mut Ring<N>,
    class: Class,
    payload: &[u8],
    scratch: &mut [u8],
    r: Result<u64, RingError<N::Refusal>>,
    blocks: Seq<Seq<u8>>,
    len: nat,
    records: Seq<(Class, Seq<u8>)>,
)
    requires
        call_ensures(Ring::<N>::append, (ring, class, payload, scratch), r),
        is_log(&*old(ring), blocks, records),
        erased_blocks(blocks, len),
        records.len() < u64::MAX - 1,
        forall|i: int| 0 <= i < records.len() ==> (#[trigger] records[i]).1.len() <= 256,
    ensures
        r matches Ok(seq) ==> {
            &&& seq == records.len() + 1
            &&& payload@.len() <= 256
            &&& is_log(&*final(ring), blocks, records.push((class, payload@)))
        },
{
    if r is Ok {
        if records.len() > 0 {
            law_a_log_of_appends_is_orderly(blocks, len, records);
        }
        law_an_append_goes_on_from_the_log(
            &*old(ring),
            &*final(ring),
            blocks,
            records,
            class,
            payload@,
        );
    }
}

/// What was appended reads back: a read of the log from any number still held
/// fills a page with the records appended from there on, each as it was written
/// and in its order, as many as the page has room for.
pub proof fn law_what_was_appended_reads_back<N: NorPart>(
    ring: &mut Ring<N>,
    from: u64,
    scratch: &mut [u8],
    page: &mut LogPage,
    r: Result<u64, RingError<N::Refusal>>,
    blocks: Seq<Seq<u8>>,
    len: nat,
    records: Seq<(Class, Seq<u8>)>,
)
    requires
        call_ensures(Ring::<N>::read_from::<LogPage>, (ring, from, scratch, page), r),
        is_log(&*old(ring), blocks, records),
        erased_blocks(blocks, len),
        0 < records.len() < u64::MAX - 1,
        forall|i: int| 0 <= i < records.len() ==> (#[trigger] records[i]).1.len() <= 256,
        old(ring).spec_head().oldest->0 <= from <= records.len() + 1,
        old(scratch)@.len() >= 273,
        old(page).seen() == Seq::<Entry>::empty(),
        old(page).answers() == Seq::<Wants>::empty(),
        old(page).room > 0,
    ensures
        old(ring).sound() ==> r is Ok,
        r is Ok ==> {
            let rest = numbered(records).skip(from - 1);
            final(page).seen() == if old(page).room < rest.len() {
                rest.take(old(page).room as int)
            } else {
                rest
            }
        },
        final(ring).parts() == old(ring).parts(),
        final(ring).spec_head() == old(ring).spec_head(),
{
    law_a_log_of_appends_is_orderly(blocks, len, records);
    let log = logged(blocks, records);
    let oldest = log.head.oldest->0;
    assert(read_start(from, oldest) == from);
    law_a_log_of_appends_reads_back(blocks, len, records, from);
    let rest = numbered(records).skip(from - 1);
    if let Ok(next) = r {
        let all = reading(log.blocks, log.head.block as int, from);
        assert(all == rest);
        law_a_page_takes_what_it_has_room_for(all, *final(page), from, next);
        assert(rest.take(rest.len() as int) =~= rest);
    }
}

/// A log is found again by whoever opens its part: the same records and the same
/// next number, and no damage counted.
pub proof fn law_a_log_is_found_again<N: NorPart>(
    ring: &Ring<N>,
    scratch: &mut [u8],
    r: Result<Ring<N>, RingError<N::Refusal>>,
    blocks: Seq<Seq<u8>>,
    len: nat,
    records: Seq<(Class, Seq<u8>)>,
)
    requires
        is_log(ring, blocks, records),
        erased_blocks(blocks, len),
        records.len() < u64::MAX,
        forall|i: int| 0 <= i < records.len() ==> (#[trigger] records[i]).1.len() <= 256,
        call_ensures(
            Ring::<N>::open,
            (ring.under(), ring.spec_from(), ring.parts().len() as u32, scratch),
            r,
        ),
        ring.under().write_bytes() == 1,
        273 <= ring.under().erase_bytes() <= u32::MAX,
        old(scratch)@.len() >= 273,
    ensures
        r matches Ok(again) ==> {
            &&& is_log(&again, blocks, records)
            &&& again.spec_damage() == (Damage { failed_crc: 0, closed: 0 })
        },
        ring.sound() ==> r is Ok,
{
    ring.lemma_parts();
    if records.len() > 0 {
        law_a_log_of_appends_is_orderly(blocks, len, records);
    }
    law_a_released_ring_opens_as_it_was(ring, blocks, len, records);
    law_a_reboot_finds_a_log_of_appends(blocks, len, records);
}

/// An event that carries a timestamp is the floor from then on, and one that
/// does not leaves the floor that was known.
pub proof fn law_a_stamped_event_is_the_floor<N: NorPart>(
    ring: &mut Ring<N>,
    class: Class,
    payload: &[u8],
    scratch: &mut [u8],
    r: Result<u64, RingError<N::Refusal>>,
    asked: &mut Ring<N>,
    room: &mut [u8],
    floor: Result<Option<u64>, RingError<N::Refusal>>,
)
    requires
        call_ensures(Ring::<N>::append, (ring, class, payload, scratch), r),
        r is Ok,
        *old(asked) == *final(ring),
        call_ensures(Ring::<N>::floor, (asked, room), floor),
    ensures
        event_of(payload@) matches Some((_, Some(at))) ==> floor == Ok::<
            Option<u64>,
            RingError<N::Refusal>,
        >(Some(at)),
        !(event_of(payload@) matches Some((_, Some(_)))) ==> (
        old(ring).known_floor() matches Some(known) ==> floor == Ok::<
            Option<u64>,
            RingError<N::Refusal>,
        >(known)),
{
}

/// The next magic is the first place from where it is looked for that holds 01
/// 89 whole before the end, and there is none only where no place does.
pub proof fn law_the_next_magic_is_the_first(block: Seq<u8>, from: int, end: int)
    requires
        0 <= from,
        end <= block.len(),
    ensures
        next_magic(block, from, end) matches Some(at) ==> {
            &&& from <= at < end - 1
            &&& block[at] == 0x01 && block[at + 1] == 0x89
            &&& forall|i: int|
                from <= i < at ==> !((#[trigger] block[i]) == 0x01 && block[i + 1] == 0x89)
        },
        next_magic(block, from, end) is None ==> forall|i: int|
            from <= i < end - 1 ==> !((#[trigger] block[i]) == 0x01 && block[i + 1] == 0x89),
    decreases end - from,
{
    if from + 1 < end && !(block[from] == 0x01 && block[from + 1] == 0x89) {
        law_the_next_magic_is_the_first(block, from + 1, end);
    }
}

/// A block is looked into as far as two of the longest records, or to its end;
/// and its head counts as erased where the thirteen bytes of a header are.
pub proof fn law_a_probe_reaches_two_records(len: nat, rest: Seq<u8>)
    ensures
        len >= 546 ==> probe_reach(len) == 546,
        len < 546 ==> probe_reach(len) == len,
        rest.len() >= 13 ==> (erased_head(rest) <==> forall|i: int|
            0 <= i < 13 ==> #[trigger] rest[i] == 0xFF),
        rest.len() < 13 ==> (erased_head(rest) <==> erased(rest)),
{
}

/// Erasing a block erases every byte of it and none of another; the block after
/// the last is the first.
pub proof fn law_erasing_a_block_spares_the_others(blocks: Seq<Seq<u8>>, k: int, other: int)
    requires
        0 <= k < blocks.len(),
        0 <= other < blocks.len(),
    ensures
        erased(cleared(blocks, k)[k]),
        cleared(blocks, k)[k].len() == blocks[k].len(),
        other != k ==> cleared(blocks, k)[other] == blocks[other],
        k + 1 < blocks.len() ==> after(k, blocks.len() as int) == k + 1,
        k + 1 == blocks.len() ==> after(k, blocks.len() as int) == 0,
{
}

/// A page turned goes on in the next block, at its start and under the same
/// number, with that block and the one after it erased and no other touched.
pub proof fn law_a_page_turned_goes_on_in_the_next_block(
    blocks: Seq<Seq<u8>>,
    head: Head,
    other: int,
)
    requires
        2 <= blocks.len() <= u32::MAX,
        head.block < blocks.len(),
        0 <= other < blocks.len(),
    ensures
        ({
            let count = blocks.len() as int;
            let next = (head.block + 1) % count;
            let ahead = (head.block + 2) % count;
            let left = turned(blocks, head);
            &&& left.head.block == next
            &&& left.head.at == 0
            &&& left.head.next_seq == head.next_seq
            &&& erased(left.blocks[next])
            &&& erased(left.blocks[ahead])
            &&& other != next && other != ahead ==> left.blocks[other] == blocks[other]
        }),
{
    let count = blocks.len() as int;
    let next = after(head.block as int, count);
    if head.block + 1 < count {
        assert((head.block + 1) % count == head.block + 1) by (nonlinear_arith)
            requires
                0 <= head.block + 1 < count,
        ;
    } else {
        assert((head.block + 1) % count == 0) by (nonlinear_arith)
            requires
                head.block + 1 == count,
                count > 0,
        ;
    }
    assert((head.block + 2) % count == after(next, count)) by (nonlinear_arith)
        requires
            count >= 2,
            0 <= head.block < count,
            next == (if head.block + 1 >= count {
                0
            } else {
                head.block + 1
            }),
            after(next, count) == (if next + 1 >= count {
                0
            } else {
                next + 1
            }),
    ;
}

} // verus!
