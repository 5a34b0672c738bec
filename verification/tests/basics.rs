//! Numbers, time, bytes and the counts kept on the part.

use o89_core::body::Body;
use o89_core::boot_count::BootCount;
use o89_core::bytes::{all_are, copy_at, copy_of, push_le, read_le, same};
use o89_core::idents::{ClientId, Conn, Epoch, Generation};
use o89_core::reading::SignalQuality;
use o89_core::tick::{Millis, Tick, UnixMillis};

#[test]
fn a_handle_or_a_slot_of_zero_is_nobodys() {
    assert!(Conn::new(0).is_none());
    assert_eq!(Conn::new(3).map(Conn::get), Some(3));
    assert!(ClientId::new(0).is_none());
    assert_eq!(ClientId::new(8).map(ClientId::get), Some(8));
    assert_eq!(ClientId::new(9).map(ClientId::get), Some(9));
}

#[test]
fn an_epoch_and_a_generation_start_at_one() {
    assert_eq!(Epoch::first().get(), 1);
    assert!(Epoch::new(0).is_none());
    assert_eq!(Generation::first().get(), 1);
    assert!(Generation::new(0).is_none());
    assert_eq!(Generation::new(5).map(Generation::get), Some(5));
}

#[test]
fn ticks_measure_what_passed_and_never_run_backwards() {
    let start = Tick::from_millis(1_000);
    let later = start.after(Millis::from_millis(500)).expect("in range");
    assert_eq!(later.as_millis(), 1_500);
    assert_eq!(later.since(start), Some(Millis::from_millis(500)));
    assert_eq!(start.since(later), None);
    assert_eq!(Tick::from_millis(u64::MAX).after(Millis::from_millis(1)), None);
    assert_eq!(Millis::from_secs(3).map(Millis::as_millis), Some(3_000));
    assert_eq!(Millis::from_secs(u64::MAX), None);
    assert_eq!(Millis::from_millis(2_999).as_secs(), 2);
    assert_eq!(Tick::zero().as_millis(), 0);
    assert_eq!(Millis::zero().as_millis(), 0);
}

#[test]
fn a_wall_time_of_zero_is_no_time() {
    assert!(UnixMillis::new(0).is_none());
    let early = UnixMillis::new(1_700_000_000_000).expect("a time");
    let late = UnixMillis::new(1_700_000_000_250).expect("a time");
    assert_eq!(late.since(early), Some(Millis::from_millis(250)));
    assert_eq!(early.since(late), None);
}

#[test]
fn a_boot_count_counts_from_one_and_stops_at_the_top() {
    assert_eq!(BootCount::first().get(), 1);
    assert_eq!(BootCount::first().next().get(), 2);
    assert!(BootCount::of(0).is_none());
    let top = BootCount::of(u32::MAX).expect("a count");
    assert_eq!(top.next().get(), u32::MAX);
}

#[test]
fn little_endian_bytes_read_back() {
    let mut out = vec![0xee];
    push_le(&mut out, 0x0102_0304, 4);
    assert_eq!(out, [0xee, 0x04, 0x03, 0x02, 0x01]);
    assert_eq!(read_le(&out[1..]), 0x0102_0304);
    assert_eq!(read_le(&[]), 0);
}

#[test]
fn bytes_compare_and_copy_as_they_are() {
    assert!(same(&[1, 2], &[1, 2]));
    assert!(!same(&[1, 2], &[1, 3]));
    assert!(!same(&[1], &[1, 2]));
    assert!(all_are(&[0xff, 0xff], 0xff));
    assert!(!all_are(&[0xff, 0x00], 0xff));
    assert!(all_are(&[], 0xff));
    let mut to = [0u8; 5];
    copy_at(&mut to, 2, &[7, 8]);
    assert_eq!(to, [0, 0, 7, 8, 0]);
    assert_eq!(copy_of(&to), vec![0, 0, 7, 8, 0]);
}

#[test]
fn a_boot_count_reads_back_and_a_zero_is_malformed() {
    for n in [1, 2, 0x0102_0304, u32::MAX] {
        let count = BootCount::of(n).expect("a count");
        let bytes: [u8; 4] = count.encode();
        assert_eq!(bytes, n.to_le_bytes());
        assert_eq!(BootCount::decode(&bytes).map(BootCount::get), Ok(n));
    }
    assert!(BootCount::decode(&[0; 4]).is_err());
}

#[test]
fn every_quality_reads_back_from_its_byte_and_no_two_share_one() {
    let mut read = 0;
    for raw in 0..=255u8 {
        let quality = SignalQuality::from_byte(raw);
        assert_eq!(
            quality.is_some(),
            km43::SignalQuality::from_byte(raw).is_ok(),
            "{raw:#04x}"
        );
        if let Some(quality) = quality {
            assert_eq!(quality.byte(), raw);
            read += 1;
        }
    }
    // Two validities carry a value from any of six provenances; six carry none.
    assert_eq!(read, 2 * 6 + 6);
}
