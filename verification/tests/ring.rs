//! The log on a part: appended, read back, found again after a boot.

use km43::{Event, EventKind, LogSeq};
use o89_core::nor::MemoryPart;
use o89_core::record::{frame, framed_len, Class, HEADER, MAGIC_BYTES};
use o89_core::ring::{Damage, Dropped, LogPage, Ring, RingError, SCRATCH, WINDOW};
use o89_core::ring_model::{Head, PROBE_REACH};

const ERASE: usize = 512;
const BLOCKS: u32 = 8;
/// Sixteen kilobytes: eight blocks of 512 for most tests, four of
/// 4096 for the one that needs a block a record cannot fill.
const PART: usize = 16 * 1024;

fn fresh() -> MemoryPart {
    fresh_of(ERASE)
}

fn fresh_of(erase: usize) -> MemoryPart {
    MemoryPart::erased(PART, erase)
}

/// An event for `seq`, at `at` on the clock, with an empty body.
fn event(seq: u64, at: Option<u64>, into: &mut [u8]) -> usize {
    Event::new(LogSeq(seq), at, EventKind::BOOT, &[0xA0])
        .expect("an empty map is a body")
        .encode(into)
        .expect("fits")
}

/// Boot: take the part into a ring. The part is worth a few kilobytes,
/// so it moves rather than borrows; `close` hands it back.
fn open(part: &mut MemoryPart) -> Ring<MemoryPart> {
    let blocks = u32::try_from(PART.checked_div(part.erase).expect("a block size"))
        .expect("fits")
        .min(BLOCKS);
    open_with(part, blocks)
}

/// Boot over `blocks` blocks of the part.
fn open_with(part: &mut MemoryPart, blocks: u32) -> Ring<MemoryPart> {
    let spare = fresh_of(part.erase);
    let taken = core::mem::replace(part, spare);
    let mut scratch = [0u8; SCRATCH];
    match Ring::open(taken, 0, blocks, &mut scratch) {
        Ok(ring) => ring,
        Err(why) => panic!("opens: {why:?}"),
    }
}

/// Power off: the part comes back out of the ring.
fn close(part: &mut MemoryPart, ring: Ring<MemoryPart>) {
    *part = ring.release();
}

/// Append one class A event, answering its sequence.
fn append(ring: &mut Ring<MemoryPart>, at: Option<u64>) -> u64 {
    let mut payload = [0u8; 64];
    let len = event(ring.next_seq(), at, &mut payload);
    let mut scratch = [0u8; SCRATCH];
    ring.append(Class::A, &payload[..len], &mut scratch).expect("appends")
}

/// Every sequence readable from `from`, and what the client asks next.
fn read(ring: &mut Ring<MemoryPart>, from: u64) -> ([u64; 256], usize, u64) {
    let mut seqs = [0u64; 256];
    let mut scratch = [0u8; SCRATCH];
    let mut page = LogPage::new(usize::MAX);
    let next = ring.read_from(from, &mut scratch, &mut page).expect("reads");
    for (slot, line) in seqs.iter_mut().zip(page.lines.iter()) {
        *slot = line.seq;
    }
    (seqs, page.lines.len(), next)
}

#[test]
fn a_raw_read_answers_the_bytes_on_the_part_and_refuses_past_its_end() {
    let mut part: MemoryPart = fresh();
    let mut ring = open(&mut part);
    assert_eq!(append(&mut ring, None), 1);
    let mut head = [0u8; 2];
    ring.read_raw(0, &mut head).expect("reads");
    assert_eq!(
        head, MAGIC_BYTES,
        "the first record's magic is at the ring's start"
    );
    let mut beyond = [0u8; 2];
    let end = u32::try_from(PART).expect("fits");
    assert_eq!(
        ring.read_raw(end.saturating_sub(1), &mut beyond),
        Err(RingError::OutOfRange)
    );
    assert_eq!(ring.read_raw(end, &mut []), Ok(()));
}

#[test]
fn dropping_the_only_block_of_records_leaves_a_fresh_ring() {
    let mut part: MemoryPart = fresh();
    let mut ring = open(&mut part);
    for _ in 0..3 {
        append(&mut ring, None);
    }
    assert_eq!(ring.next_seq(), 4);
    let mut scratch = [0u8; SCRATCH];
    assert_eq!(
        ring.drop_oldest(&mut scratch),
        Ok(Dropped::Block {
            block: 0,
            oldest: None
        })
    );
    assert_eq!(
        ring.head(),
        Head {
            block: 0,
            at: 0,
            next_seq: 1,
            oldest: None
        },
        "a ring with nothing on it is a fresh ring"
    );
    assert_eq!(
        ring.drop_oldest(&mut scratch),
        Ok(Dropped::Nothing),
        "and there is nothing more to drop"
    );
    assert_eq!(append(&mut ring, None), 1);
    let (_, count, next) = read(&mut ring, 1);
    assert_eq!((count, next), (1, 2));
}

#[test]
fn f_023_dropping_the_oldest_block_sheds_the_old_end_and_never_reuses_a_sequence() {
    let mut part: MemoryPart = fresh();
    let mut ring = open_with(&mut part, 4);
    for _ in 0..60 {
        append(&mut ring, None);
    }
    let next = ring.next_seq();
    let mut oldest = ring.head().oldest.expect("records");
    assert!(oldest > 1, "the ring has wrapped");
    let mut scratch = [0u8; SCRATCH];
    let mut dropped = 0;
    // Bounded: a drop that leaves records moves the oldest past a
    // block's worth, and four blocks hold at most three of them.
    for _ in 0..5 {
        match ring.drop_oldest(&mut scratch).expect("drops") {
            Dropped::Block {
                oldest: Some(left), ..
            } => {
                dropped += 1;
                assert!(left > oldest, "{left} after {oldest}");
                assert_eq!(ring.next_seq(), next, "the next sequence never moves back");
                let (seqs, count, answered) = read(&mut ring, 1);
                assert_eq!(
                    count as u64,
                    next - left,
                    "every record from the oldest left"
                );
                assert!(seqs[..count].iter().copied().eq(left..next), "contiguous");
                assert_eq!(answered, next);
                let head = ring.head();
                close(&mut part, ring);
                ring = open_with(&mut part, 4);
                assert_eq!(ring.head(), head, "a boot finds the same ring");
                oldest = left;
            }
            Dropped::Block { oldest: None, .. } => {
                dropped += 1;
                assert_eq!(
                    ring.next_seq(),
                    1,
                    "the last block went: the log starts over"
                );
                break;
            }
            Dropped::Nothing => panic!("records were left"),
        }
    }
    assert!(dropped >= 2, "{dropped} drops");
    assert_eq!(
        ring.drop_oldest(&mut scratch),
        Ok(Dropped::Nothing)
    );
}

#[test]
fn an_undersized_scratch_is_refused_before_anything_is_dropped() {
    let mut part: MemoryPart = fresh();
    let mut ring = open(&mut part);
    for _ in 0..3 {
        append(&mut ring, None);
    }
    let before = ring.head();
    let mut small = [0u8; SCRATCH - 1];
    assert_eq!(
        ring.drop_oldest(&mut small),
        Err(RingError::ScratchTooSmall(SCRATCH - 1))
    );
    assert_eq!(ring.head(), before, "the head still describes the bytes");
    let mut first = [0u8; 2];
    ring.read_raw(0, &mut first).expect("reads");
    assert_eq!(first, MAGIC_BYTES, "and the bytes are still there");
}

#[test]
fn a_block_outside_the_ring_is_erased_and_one_inside_it_is_refused() {
    let mut part: MemoryPart = fresh();
    // Four of the part's thirty-two blocks are the ring's.
    let mut ring = open_with(&mut part, 4);
    for _ in 0..3 {
        append(&mut ring, None);
    }
    let before = ring.head();
    ring.erase_block(6).expect("erases");
    assert_eq!(ring.head(), before);
    for block in 0..4 {
        assert_eq!(
            ring.erase_block(block),
            Err(RingError::InsideTheRing(block)),
            "only the oldest goes, through drop_oldest"
        );
    }
    assert_eq!(ring.head(), before);
    let blocks = u32::try_from(PART / ERASE).expect("fits");
    assert_eq!(
        ring.erase_block(blocks),
        Err(RingError::OutOfRange),
        "the block after the last is past the part"
    );
}

#[test]
fn f_023_a_fresh_part_opens_empty_and_the_first_record_is_one() {
    let mut part: MemoryPart = fresh();
    let mut ring = open(&mut part);
    assert_eq!(
        ring.head(),
        Head {
            block: 0,
            at: 0,
            next_seq: 1,
            oldest: None
        }
    );
    let (_, count, next) = read(&mut ring, 1);
    assert_eq!((count, next), (0, 1));
    assert_eq!(append(&mut ring, None), 1);
    assert_eq!(append(&mut ring, None), 2);
    assert_eq!(ring.head().oldest, Some(1));
    let (seqs, count, next) = read(&mut ring, 1);
    assert_eq!(&seqs[..count], &[1, 2]);
    assert_eq!(next, 3);
    // A reboot finds the same head.
    close(&mut part, ring);
    let ring = open(&mut part);
    assert_eq!(ring.head().next_seq, 3);
    assert_eq!(ring.head().oldest, Some(1));
    assert_eq!(ring.damage(), Damage::default());
}

#[test]
fn f_023_the_ring_wraps_the_oldest_block_is_erased_one_ahead_and_the_oldest_moves() {
    let mut part: MemoryPart = fresh();
    let mut ring = open(&mut part);
    // About 21 bytes a record: about 24 per 512-byte block, 8 blocks.
    let mut last = 0;
    for _ in 0..300 {
        last = append(&mut ring, None);
    }
    let head = ring.head();
    assert!(head.block < BLOCKS);
    assert_eq!(head.next_seq, last + 1);
    let oldest = head.oldest.expect("the ring holds records");
    assert!(
        oldest > 1,
        "the ring wrapped and the first records are gone"
    );
    // Everything from the oldest to the newest reads back in order.
    let (seqs, count, next) = read(&mut ring, oldest);
    assert_eq!(count as u64, last - oldest + 1);
    assert!(seqs[..count].windows(2).all(|w| w[1] == w[0] + 1));
    assert_eq!(next, last + 1);
    close(&mut part, ring);
    // The block after the head is erased, ready.
    let ahead = ((head.block + 1) % BLOCKS) as usize;
    assert!(
        part.bytes[ahead * ERASE..(ahead + 1) * ERASE]
            .iter()
            .all(|b| *b == 0xFF)
    );
    // And a reboot agrees on all of it.
    let rebooted = open(&mut part);
    assert_eq!(rebooted.head(), head);
}

#[test]
fn p_099_a_read_from_below_the_oldest_is_answered_from_the_oldest() {
    let mut part: MemoryPart = fresh();
    let mut ring = open(&mut part);
    for _ in 0..300 {
        let _ = append(&mut ring, None);
    }
    let oldest = ring.head().oldest.expect("records");
    let (seqs, count, _) = read(&mut ring, 1);
    assert_eq!(seqs[0], oldest);
    assert!(count > 0);
    // From the middle: exactly the records from there.
    let (seqs, _, _) = read(&mut ring, oldest + 10);
    assert_eq!(seqs[0], oldest + 10);
    // Past the newest: nothing, and ask again from there.
    let newest = ring.next_seq() - 1;
    let (_, count, next) = read(&mut ring, newest + 5);
    assert_eq!((count, next), (0, newest + 5));
}

#[test]
fn p_096_a_record_that_fails_its_crc_is_a_hole_and_the_scan_hunts_past_it() {
    let mut part: MemoryPart = fresh();
    let mut ring = open(&mut part);
    for _ in 0..5 {
        let _ = append(&mut ring, None);
    }
    close(&mut part, ring);
    // Flip a payload bit in the third record: block 0, records of one
    // length, so the third starts at 2 * len.
    let len = framed_len(event(1, None, &mut [0u8; 64]));
    part.bytes[2 * len + HEADER] ^= 0x01;
    let mut ring = open(&mut part);
    assert_eq!(ring.damage().failed_crc, 1);
    assert_eq!(ring.damage().closed, 0);
    let (seqs, count, _) = read(&mut ring, 1);
    assert_eq!(&seqs[..count], &[1, 2, 4, 5]);
    // The head is still past the fifth record: the length of the
    // damaged one was not trusted, its magic was hunted past.
    assert_eq!(ring.head().at as usize, 5 * len);
    assert_eq!(append(&mut ring, None), 6);
}

#[test]
fn f_023_a_torn_write_closes_its_block_and_is_not_damage() {
    let mut part: MemoryPart = fresh();
    let mut ring = open(&mut part);
    for _ in 0..3 {
        let _ = append(&mut ring, None);
    }
    let at = ring.head().at as usize;
    close(&mut part, ring);
    // A body that landed without its magic: the next record cut
    // before the last program.
    let mut payload = [0u8; 64];
    let plen = event(4, None, &mut payload);
    let mut framed = [0u8; SCRATCH];
    let f = frame(&mut framed, 4, Class::A, &payload[..plen]).expect("frames");
    part.bytes[at + 2..at + f.len()].copy_from_slice(f.body(&framed));
    let mut ring = open(&mut part);
    assert_eq!(
        ring.damage(),
        Damage {
            failed_crc: 0,
            closed: 1
        }
    );
    // The three records stay readable; the log continues in block 1
    // and the sequence continues from four.
    let (seqs, count, _) = read(&mut ring, 1);
    assert_eq!(&seqs[..count], &[1, 2, 3]);
    assert_eq!(ring.head().block, 1);
    assert_eq!(ring.head().at, 0);
    assert_eq!(append(&mut ring, None), 4);
    let (seqs, count, _) = read(&mut ring, 1);
    assert_eq!(&seqs[..count], &[1, 2, 3, 4]);
}

#[test]
fn f_023_a_first_write_cut_short_on_a_fresh_part_is_an_ordinary_first_boot() {
    let mut part: MemoryPart = fresh();
    // Half a body at the very start of block 0, no magic, nothing else.
    part.bytes[2..10].copy_from_slice(&[0x12; 8]);
    let mut ring = open(&mut part);
    assert_eq!(ring.damage().failed_crc, 0);
    assert_eq!(ring.head().block, 1);
    assert_eq!(ring.head().next_seq, 1);
    assert_eq!(append(&mut ring, None), 1);
    let (seqs, count, _) = read(&mut ring, 1);
    assert_eq!(&seqs[..count], &[1]);
}

#[test]
fn l_140_the_floor_is_the_newest_timestamp_held_and_none_when_no_record_carries_one() {
    let mut part: MemoryPart = fresh();
    let mut ring = open(&mut part);
    let mut scratch = [0u8; SCRATCH];
    assert_eq!(ring.floor(&mut scratch), Ok(None));
    let _ = append(&mut ring, None);
    let _ = append(&mut ring, Some(1_790_000_000_000));
    let _ = append(&mut ring, Some(1_790_000_050_000));
    let _ = append(&mut ring, None);
    assert_eq!(
        ring.floor(&mut scratch),
        Ok(Some(1_790_000_050_000))
    );
    // A reboot finds it again by walking back, across blocks.
    for _ in 0..40 {
        let _ = append(&mut ring, None);
    }
    close(&mut part, ring);
    let mut rebooted = open(&mut part);
    assert!(rebooted.head().block >= 1);
    assert_eq!(
        rebooted.floor(&mut scratch),
        Ok(Some(1_790_000_050_000))
    );
    // A newer timestamp appended moves it without a walk.
    let _ = append(&mut rebooted, Some(1_790_000_999_000));
    assert_eq!(
        rebooted.floor(&mut scratch),
        Ok(Some(1_790_000_999_000))
    );
}

#[test]
fn f_023_a_part_full_of_somebody_elses_bytes_opens_in_bounded_reads_and_starts_over() {
    // Four blocks of 4096, every byte a pseudo-random non-erased value,
    // the way a part out of another firmware reads.
    const BIG: usize = 4096;
    let mut part: MemoryPart = fresh_of(BIG);
    let mut x: u32 = 0x1234_5678;
    for byte in &mut part.bytes {
        x = x.wrapping_mul(1_664_525).wrapping_add(1_013_904_223);
        *byte = (x >> 24) as u8 | 0x01;
    }
    part.read = 0;
    let mut ring = open(&mut part);
    // Nothing readable anywhere: the log starts over in block zero,
    // erased for it, with block one erased ahead.
    assert_eq!(ring.head().block, 0);
    assert_eq!(ring.head().next_seq, 1);
    assert_eq!(append(&mut ring, None), 1);
    close(&mut part, ring);
    // The boot read a probe's reach per block on each of its two passes
    // over them, plus the whole of the blocks it checked for erasure,
    // and never the whole of every block.
    let blocks = PART / BIG;
    let reach = 2 * blocks * (PROBE_REACH + 2 * WINDOW);
    assert!(
        part.read <= reach + 3 * BIG,
        "{} bytes read, more than {}",
        part.read,
        reach + 3 * BIG
    );
    assert!(
        part.read < 2 * PART,
        "{} bytes read: the whole part, twice",
        part.read
    );
    let ring = open(&mut part);
    assert_eq!(ring.head().next_seq, 2);
}

#[test]
fn p_099_the_run_is_the_distance_in_the_ring_for_a_block_count_that_is_not_a_power_of_two() {
    // Six blocks: two to the thirty-two leaves four modulo six, so a
    // wrapping subtraction makes the run four blocks too long, and the
    // walk then hands a client the oldest records again after the
    // newest. Five would leave one, which only revisits the erased
    // block and shows nothing.
    let mut part: MemoryPart = fresh();
    let mut ring = open_with(&mut part, 6);
    let mut last = 0;
    for i in 0..120u64 {
        last = append(&mut ring, Some(1_790_000_000_000 + i));
    }
    let oldest = ring.head().oldest.expect("records");
    assert!(oldest > 1);
    let (seqs, count, next) = read(&mut ring, 1);
    assert_eq!(seqs[0], oldest);
    assert!(seqs[..count].windows(2).all(|w| w[1] == w[0] + 1));
    assert_eq!(next, last + 1);
    let mut scratch = [0u8; SCRATCH];
    assert_eq!(
        ring.floor(&mut scratch),
        Ok(Some(1_790_000_000_000 + 119))
    );
    // A reboot walks the same run.
    close(&mut part, ring);
    let mut rebooted = open_with(&mut part, 6);
    let (seqs, count, _) = read(&mut rebooted, 1);
    assert_eq!(seqs[0], oldest);
    assert_eq!(seqs[count - 1], last);
}

#[test]
fn f_023_a_magic_in_the_last_bytes_of_a_block_does_not_trap_the_scan() {
    let mut part: MemoryPart = fresh();
    let mut ring = open(&mut part);
    let _ = append(&mut ring, None);
    let tail = ring.head().at as usize;
    close(&mut part, ring);
    // Residue from the tail to the end of the block, ending in the two
    // bytes of the magic with no room for a header behind them.
    for byte in &mut part.bytes[tail..ERASE] {
        *byte = 0x55;
    }
    part.bytes[ERASE - 2..ERASE].copy_from_slice(&MAGIC_BYTES);
    let mut ring = open(&mut part);
    assert_eq!(ring.head().block, 1);
    assert_eq!(ring.damage().closed, 1);
    let (seqs, count, _) = read(&mut ring, 1);
    assert_eq!(&seqs[..count], &[1]);
    assert_eq!(append(&mut ring, None), 2);
}

#[test]
fn f_023_a_block_erased_only_at_its_start_is_erased_whole_before_the_head_goes_into_it() {
    // Four blocks of 4096. Block zero reads erased for a probe's reach
    // and holds somebody else's bytes past it; blocks one to three
    // hold bytes from their first byte, so nothing anchors.
    const BIG: usize = 4096;
    let mut part: MemoryPart = fresh_of(BIG);
    for byte in &mut part.bytes[PROBE_REACH + 8..] {
        *byte = 0x5A;
    }
    let mut ring = open(&mut part);
    assert_eq!(ring.head().block, 0);
    assert_eq!(ring.head().at, 0);
    // Fill the block: every record must read back, which it cannot if
    // the residue past the reach is still there when a record lands
    // over it.
    let mut last = 0;
    let mut payload = [0u8; 64];
    let len = framed_len(event(1, None, &mut payload));
    for _ in 0..BIG / len {
        last = append(&mut ring, None);
    }
    let (seqs, count, _) = read(&mut ring, 1);
    assert_eq!(count as u64, last);
    assert!(seqs[..count].windows(2).all(|w| w[1] == w[0] + 1));
    assert_eq!(ring.damage().failed_crc, 0);
    close(&mut part, ring);
    // And the same on a reboot, which scans the block whole.
    let mut rebooted = open(&mut part);
    assert_eq!(rebooted.damage().failed_crc, 0);
    let (_, count, _) = read(&mut rebooted, 1);
    assert_eq!(count as u64, last);
}

#[test]
fn a_payload_that_is_not_the_next_event_is_refused_before_anything_lands() {
    let mut part: MemoryPart = fresh();
    let mut ring = open(&mut part);
    let mut payload = [0u8; 64];
    let len = event(7, None, &mut payload);
    let mut scratch = [0u8; SCRATCH];
    assert_eq!(
        ring.append(Class::A, &payload[..len], &mut scratch),
        Err(RingError::NotTheNextEvent)
    );
    assert_eq!(
        ring.append(Class::A, b"not cbor", &mut scratch),
        Err(RingError::NotTheNextEvent)
    );
    let mut small = [0u8; 16];
    assert_eq!(
        ring.append(Class::A, &payload[..len], &mut small),
        Err(RingError::ScratchTooSmall(16))
    );
    close(&mut part, ring);
    assert!(part.bytes.iter().all(|b| *b == 0xFF));
}

#[test]
fn a_ring_of_one_block_or_a_scratch_under_a_record_is_refused() {
    let mut scratch = [0u8; SCRATCH];
    assert!(matches!(
        Ring::open(fresh(), 0, 1, &mut scratch),
        Err(RingError::TooFewBlocks(1))
    ));
    let mut small = [0u8; 8];
    assert!(matches!(
        Ring::open(fresh(), 0, BLOCKS, &mut small),
        Err(RingError::ScratchTooSmall(8))
    ));
}

#[test]
fn on_a_ring_of_two_blocks_the_oldest_is_the_first_a_read_visits() {
    let mut part = fresh();
    let mut ring = open_with(&mut part, 2);
    let mut turned = 0;
    for _ in 0..80 {
        let before = ring.head().block;
        append(&mut ring, None);
        if ring.head().block != before {
            turned += 1;
            assert_eq!(
                ring.head().oldest,
                Some(ring.next_seq() - 1),
                "a turned page leaves the record just written"
            );
        }
        let (seqs, count, next) = read(&mut ring, 1);
        assert_eq!(Some(seqs[0]), ring.head().oldest);
        assert_eq!(next, ring.next_seq());
        assert_eq!(count as u64, ring.next_seq() - seqs[0]);
    }
    assert!(turned >= 2, "{turned} turns");
    let head = ring.head();
    close(&mut part, ring);
    let ring = open_with(&mut part, 2);
    assert_eq!(ring.head(), head, "a boot finds the same ring");
    assert_eq!(ring.damage(), Damage::default());
}

#[test]
fn a_read_stops_at_the_record_that_fills_the_page() {
    let mut part = fresh();
    let mut ring = open(&mut part);
    for _ in 0..40 {
        append(&mut ring, None);
    }
    let mut scratch = [0u8; SCRATCH];
    let mut from = 1;
    let mut seen = Vec::new();
    while from < ring.next_seq() {
        let mut page = LogPage::new(7);
        from = ring
            .read_from(from, &mut scratch, &mut page)
            .expect("reads");
        assert!(page.lines.len() <= 7, "no more than the page holds");
        seen.extend(page.lines.iter().map(|line| line.seq));
    }
    assert_eq!(seen, (1..=40).collect::<Vec<u64>>());
    // A page with no room takes the one record that tells it so.
    let mut none = LogPage::new(0);
    let next = ring.read_from(3, &mut scratch, &mut none).expect("reads");
    assert_eq!((none.lines.len(), next), (1, 4));
}

#[test]
fn past_a_wrap_a_drop_takes_the_oldest_block_and_nothing_else() {
    let mut part = fresh();
    let mut ring = open(&mut part);
    for _ in 0..160 {
        append(&mut ring, None);
    }
    let mut scratch = [0u8; SCRATCH];
    let next = ring.next_seq();
    let before = ring.head().oldest.expect("records");
    assert!(before > 1, "the ring has wrapped");
    let dropped = ring.drop_oldest(&mut scratch).expect("drops");
    let Dropped::Block { oldest: Some(left), .. } = dropped else {
        panic!("records were left");
    };
    let (seqs, count, answered) = read(&mut ring, 1);
    assert_eq!((count as u64, answered), (next - left, next));
    assert!(seqs[..count].iter().copied().eq(left..next));
    // Several pages are left: one block's worth went, not the rest of the ring.
    assert!(left - before < (next - before) / 3, "{before} {left} {next}");
    // Appending goes on in the same order.
    let seq = append(&mut ring, None);
    assert_eq!(seq, next);
    assert_eq!(ring.head().oldest, Some(left));
}
