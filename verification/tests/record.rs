//! Records: framed, verified, refused.

use o89_core::record::{
    frame, verify, Class, Found, Header, Unframed, MAGIC_BYTES, MAX_PAYLOAD, MAX_RECORD, OVERHEAD,
};

#[test]
fn f_023_a_record_costs_seventeen_bytes_and_reads_back_whole() {
    let mut buffer = [0u8; MAX_RECORD];
    let framed = frame(&mut buffer, 7, Class::A, b"boot").expect("frames");
    assert_eq!(framed.len(), 17 + 4);
    assert_eq!(OVERHEAD, 17);
    assert_eq!(
        verify(&buffer),
        Some(Found {
            seq: 7,
            class: Class::A,
            payload: b"boot"
        })
    );
    // The body is what lands first: everything after the magic.
    assert_eq!(framed.body(&buffer).len(), 19);
    assert_eq!(&buffer[..2], &MAGIC_BYTES);
}

#[test]
fn f_023_a_record_without_its_magic_is_not_a_record() {
    let mut buffer = [0u8; MAX_RECORD];
    let _ = frame(&mut buffer, 7, Class::B, b"aggregate").expect("frames");
    buffer[..2].copy_from_slice(&[0xFF, 0xFF]);
    assert_eq!(verify(&buffer), None);
    assert_eq!(Header::parse(&buffer), None);
}

#[test]
fn f_023_a_flipped_bit_anywhere_after_the_magic_fails_the_crc() {
    let mut buffer = [0u8; MAX_RECORD];
    let framed = frame(&mut buffer, 9, Class::A, b"state").expect("frames");
    for bit in 16..framed.len() * 8 {
        let mut damaged = buffer;
        damaged[bit / 8] ^= 1 << (bit % 8);
        assert_eq!(verify(&damaged), None, "bit {bit}");
    }
}

#[test]
fn a_payload_past_the_cap_a_zero_sequence_or_a_short_buffer_is_refused() {
    let mut buffer = [0u8; MAX_RECORD];
    let long = [0u8; MAX_PAYLOAD + 1];
    assert_eq!(
        frame(&mut buffer, 1, Class::A, &long),
        Err(Unframed::PayloadTooLong(MAX_PAYLOAD + 1))
    );
    assert_eq!(
        frame(&mut buffer, 0, Class::A, b"x"),
        Err(Unframed::ZeroIsNotAPosition)
    );
    assert_eq!(
        frame(&mut buffer[..10], 1, Class::A, b"x"),
        Err(Unframed::NoRoom { needs: 18, has: 10 })
    );
    // The largest payload frames and reads back.
    let full = [0x5Au8; MAX_PAYLOAD];
    let framed = frame(&mut buffer, u64::MAX, Class::B, &full).expect("frames");
    assert_eq!(framed.len(), MAX_RECORD);
    assert_eq!(verify(&buffer).map(|f| f.payload.len()), Some(MAX_PAYLOAD));
}

#[test]
fn a_class_byte_nobody_allocated_is_a_record_this_build_refuses() {
    let mut buffer = [0u8; MAX_RECORD];
    let _ = frame(&mut buffer, 3, Class::A, b"x").expect("frames");
    buffer[12] = 0x01;
    let header = Header::parse(&buffer).expect("the magic is there");
    assert_eq!(header.class, None);
    assert_eq!(header.record_len(), None);
    assert_eq!(verify(&buffer), None);
}

/// The CRC-32, bit by bit.
fn crc(bytes: &[u8]) -> u32 {
    let mut register = 0xFFFF_FFFFu32;
    for byte in bytes {
        register ^= u32::from(*byte);
        for _ in 0..8 {
            register = if register & 1 == 1 {
                (register >> 1) ^ 0xEDB8_8320
            } else {
                register >> 1
            };
        }
    }
    register ^ 0xFFFF_FFFF
}

#[test]
fn the_crc_is_the_reflected_polynomial_from_all_ones_complemented() {
    assert_eq!(crc(b"123456789"), 0xCBF4_3926);
    let mut buffer = [0u8; MAX_RECORD];
    for payload in [&b""[..], b"boot", &[0xFF; 256]] {
        let framed = frame(&mut buffer, 7, Class::B, payload).expect("frames");
        let len = framed.len();
        let covered = &buffer[2..len - 4];
        assert_eq!(&buffer[len - 4..len], &crc(covered).to_le_bytes());
    }
}
