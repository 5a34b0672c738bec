//! One record on NOR: the seventeen bytes around a payload, and the two rules
//! that stop a damaged log lying.
//!
//! ```text
//! [ magic: u16 | len: u16 | seq: u64 | class: u8 | payload | crc32 ]
//!   ^ programmed LAST
//! ```
//!
//! The magic is programmed last, so a write cut short leaves no magic and a
//! scan reads it as residue. The CRC covers everything after the magic, the
//! length included, so a damaged record is never stepped over by its own
//! length: a scan hunts for the next magic instead.
//!
//! Nothing here touches a part. This frames a record into a buffer and reads
//! one back out of bytes.

use crate::bytes::{copy_at, from_le, le, push_le, read_le, spliced};
use vstd::prelude::*;

verus! {

/// What a record's header says it is. Neither what an erased block reads as
/// nor what a block that failed to erase does.
pub const MAGIC: u16 = 0x8901;

/// The low byte of the magic, which sits first on the part.
pub const MAGIC_LOW: u8 = 0x01;

/// The high byte of the magic.
pub const MAGIC_HIGH: u8 = 0x89;

/// The two bytes of the magic, as they sit on the part.
pub const MAGIC_BYTES: [u8; 2] = [MAGIC_LOW, MAGIC_HIGH];

/// Bytes a record costs beyond its payload.
pub const OVERHEAD: usize = 2 + 2 + 8 + 1 + 4;

/// The bytes before the payload.
pub const HEADER: usize = 2 + 2 + 8 + 1;

/// The largest payload one record may carry.
pub const MAX_PAYLOAD: usize = 256;

/// The bytes the largest record takes, which is the scratch a scan needs.
pub const MAX_RECORD: usize = OVERHEAD + MAX_PAYLOAD;

/// The byte a class A record carries on the part.
pub const CLASS_A: u8 = 0xA0;

/// The byte a class B record carries on the part.
pub const CLASS_B: u8 = 0xB0;

/// Whether a record may be shed when the ring is under pressure.
///
/// The byte on the part, so a scan can decide what to keep without parsing a
/// payload.
#[derive(Debug, Clone, Copy, PartialEq, Eq, Structural)]
pub enum Class {
    /// Never dropped: state changes, commands and their outcomes, alarms,
    /// configuration changes, boot records, faults.
    A,
    /// Dropped first, with a marker recording how many: aggregates,
    /// diagnostics, telemetry.
    B,
}

impl Class {
    /// The byte on the part, in the mathematical sense.
    pub open spec fn spec_byte(self) -> u8 {
        match self {
            Class::A => CLASS_A,
            Class::B => CLASS_B,
        }
    }

    /// The class a byte names, in the mathematical sense.
    pub open spec fn spec_of(byte: u8) -> Option<Class> {
        if byte == CLASS_A {
            Some(Class::A)
        } else if byte == CLASS_B {
            Some(Class::B)
        } else {
            None
        }
    }

    /// The byte on the part.
    pub fn byte(self) -> (r: u8)
        ensures
            r == self.spec_byte(),
    {
        match self {
            Class::A => CLASS_A,
            Class::B => CLASS_B,
        }
    }

    /// The class a byte names, or nothing for one no build allocated.
    pub fn of(byte: u8) -> (r: Option<Self>)
        ensures
            r == Class::spec_of(byte),
    {
        if byte == CLASS_A {
            Some(Class::A)
        } else if byte == CLASS_B {
            Some(Class::B)
        } else {
            None
        }
    }
}

/// Why a record could not be framed.
#[derive(Debug, Clone, Copy, PartialEq, Eq, Structural)]
pub enum Unframed {
    /// A payload longer than [`MAX_PAYLOAD`].
    PayloadTooLong(usize),
    /// The buffer offered is smaller than the record.
    NoRoom {
        /// What the record needs.
        needs: usize,
        /// What was offered.
        has: usize,
    },
    /// Sequence numbers are positions, and zero is not one.
    ZeroIsNotAPosition,
}

/// What a record holds, apart from the bytes it is held in.
#[verifier::ext_equal]
pub struct Entry {
    /// The sequence number.
    pub seq: u64,
    /// The class.
    pub class: Class,
    /// The payload.
    pub payload: Seq<u8>,
}

/// One bit through the CRC's register, lowest first.
pub open spec fn crc_bit(register: u32) -> u32 {
    if register & 1 == 1 {
        (register >> 1) ^ 0xEDB8_8320
    } else {
        register >> 1
    }
}

/// `n` bits through the register.
pub open spec fn crc_bits(register: u32, n: nat) -> u32
    decreases n,
{
    if n == 0 {
        register
    } else {
        crc_bit(crc_bits(register, (n - 1) as nat))
    }
}

/// The register once every byte of `bytes` went through it.
pub open spec fn crc_register(bytes: Seq<u8>) -> u32
    decreases bytes.len(),
{
    if bytes.len() == 0 {
        0xFFFF_FFFF
    } else {
        crc_bits(crc_register(bytes.drop_last()) ^ (bytes.last() as u32), 8)
    }
}

/// The CRC-32 of `bytes`: the reflected polynomial, from all ones, complemented.
pub open spec fn crc_of(bytes: Seq<u8>) -> u32 {
    crc_register(bytes) ^ 0xFFFF_FFFF
}

/// The checksum of `bytes`: `crc::Crc::<u32>::checksum` under
/// `CRC_32_ISO_HDLC`.
///
/// Trusted: the checksum is the one [`crc_of`] states.
#[verifier::external_body]
fn crc32(bytes: &[u8]) -> (r: u32)
    ensures
        r == crc_of(bytes@),
{
    crc::Crc::<u32>::new(&crc::CRC_32_ISO_HDLC).checksum(bytes)
}

/// The bytes a record's CRC covers: everything between the magic and the CRC.
pub open spec fn covered_bytes(seq: u64, class: Class, payload: Seq<u8>) -> Seq<u8> {
    le(payload.len(), 2) + le(seq as nat, 8) + seq![class.spec_byte()] + payload
}

/// A record as it sits on the part, under the CRC `crc`.
pub open spec fn image_under(seq: u64, class: Class, payload: Seq<u8>, crc: u32) -> Seq<u8> {
    seq![MAGIC_LOW, MAGIC_HIGH] + covered_bytes(seq, class, payload) + le(crc as nat, 4)
}

/// A record as it sits on the part.
pub open spec fn image(seq: u64, class: Class, payload: Seq<u8>) -> Seq<u8> {
    image_under(seq, class, payload, crc_of(covered_bytes(seq, class, payload)))
}

/// The bytes a record takes for a payload of `payload` bytes.
pub fn framed_len(payload: usize) -> (r: usize)
    ensures
        r == (if OVERHEAD + payload <= usize::MAX {
            OVERHEAD + payload
        } else {
            usize::MAX as int
        }),
{
    OVERHEAD.saturating_add(payload)
}

/// A record framed into a buffer: the body ready to land, the magic held back
/// until it has.
#[derive(Debug, Clone, Copy, PartialEq, Eq, Structural)]
pub struct Framed {
    /// The whole record's length, magic included.
    pub len: usize,
}

impl Framed {
    /// The whole record's length, magic included.
    pub fn len(self) -> (r: usize)
        ensures
            r == self.len,
    {
        self.len
    }

    /// Whether the record holds nothing, which a framed one never does.
    pub fn is_empty(self) -> (r: bool)
        ensures
            r == (self.len == 0),
    {
        self.len == 0
    }

    /// The body: everything after the magic, which is what lands first.
    /// Empty when the buffer does not hold the record.
    pub fn body(self, buffer: &[u8]) -> (r: &[u8])
        ensures
            r@ == (if 2 <= self.len <= buffer@.len() {
                buffer@.subrange(2, self.len as int)
            } else {
                Seq::empty()
            }),
    {
        if 2 <= self.len && self.len <= buffer.len() {
            &buffer[2..self.len]
        } else {
            &buffer[0..0]
        }
    }
}

/// Why framing `payload` as record `seq` into a buffer of `has` bytes is
/// refused, if it is.
pub open spec fn unframed(has: nat, seq: u64, payload: nat) -> Option<Unframed> {
    if payload > MAX_PAYLOAD {
        Some(Unframed::PayloadTooLong(payload as usize))
    } else if seq == 0 {
        Some(Unframed::ZeroIsNotAPosition)
    } else if has < OVERHEAD + payload {
        Some(Unframed::NoRoom { needs: (OVERHEAD + payload) as usize, has: has as usize })
    } else {
        None
    }
}

/// Lay record `seq` of `class` into the front of `buffer` under the CRC `crc`:
/// the magic, the length, the sequence, the class, the payload and the CRC.
pub fn frame_under(
    buffer: &mut [u8],
    seq: u64,
    class: Class,
    payload: &[u8],
    crc: u32,
) -> (r: Result<Framed, Unframed>)
    ensures
        match unframed(old(buffer)@.len(), seq, payload@.len()) {
            Some(why) => r == Err::<Framed, Unframed>(why) && final(buffer)@ == old(buffer)@,
            None => {
                &&& r == Ok::<Framed, Unframed>(
                    Framed { len: (OVERHEAD + payload@.len()) as usize },
                )
                &&& final(buffer)@ == spliced(
                    old(buffer)@,
                    0,
                    image_under(seq, class, payload@, crc),
                )
            },
        },
{
    if payload.len() > MAX_PAYLOAD {
        return Err(Unframed::PayloadTooLong(payload.len()));
    }
    if seq == 0 {
        return Err(Unframed::ZeroIsNotAPosition);
    }
    let needs: usize = framed_len(payload.len());
    let has: usize = buffer.len();
    if has < needs {
        return Err(Unframed::NoRoom { needs, has });
    }
    let mut record: Vec<u8> = Vec::new();
    record.push(MAGIC_LOW);
    record.push(MAGIC_HIGH);
    let covered = covered_vec(seq, class, payload);
    proof {
        broadcast use crate::bytes::lemma_le_len;

        assert(record@ =~= seq![MAGIC_LOW, MAGIC_HIGH]);
    }
    record.extend_from_slice(covered.as_slice());
    proof {
        assert(record@ =~= seq![MAGIC_LOW, MAGIC_HIGH] + covered_bytes(seq, class, payload@));
    }
    push_le(&mut record, crc as u64, 4);
    proof {
        broadcast use crate::bytes::lemma_le_len;

        assert(record@ =~= image_under(seq, class, payload@, crc));
        assert(record@.len() == OVERHEAD + payload@.len());
    }
    copy_at(buffer, 0, record.as_slice());
    Ok(Framed { len: needs })
}

/// The bytes the CRC of a record covers, in order.
fn covered_vec(seq: u64, class: Class, payload: &[u8]) -> (r: Vec<u8>)
    requires
        payload@.len() <= MAX_PAYLOAD,
    ensures
        r@ == covered_bytes(seq, class, payload@),
{
    let mut out: Vec<u8> = Vec::new();
    push_le(&mut out, payload.len() as u64, 2);
    push_le(&mut out, seq, 8);
    out.push(class.byte());
    out.extend_from_slice(payload);
    proof {
        assert(out@ =~= covered_bytes(seq, class, payload@));
    }
    out
}

/// Frame `payload` as record `seq` of `class` into `buffer`: the length, the
/// sequence, the class, the payload and the CRC over all of them, with the
/// magic in place at the front for the writer to land last.
pub fn frame(buffer: &mut [u8], seq: u64, class: Class, payload: &[u8]) -> (r: Result<
    Framed,
    Unframed,
>)
    ensures
        match unframed(old(buffer)@.len(), seq, payload@.len()) {
            Some(why) => r == Err::<Framed, Unframed>(why) && final(buffer)@ == old(buffer)@,
            None => {
                &&& r == Ok::<Framed, Unframed>(
                    Framed { len: (OVERHEAD + payload@.len()) as usize },
                )
                &&& final(buffer)@ == spliced(old(buffer)@, 0, image(seq, class, payload@))
            },
        },
{
    if payload.len() > MAX_PAYLOAD {
        return Err(Unframed::PayloadTooLong(payload.len()));
    }
    let covered = covered_vec(seq, class, payload);
    let crc: u32 = crc32(covered.as_slice());
    frame_under(buffer, seq, class, payload, crc)
}

/// What the header of a candidate record says, before its CRC is trusted.
#[derive(Debug, Clone, Copy, PartialEq, Eq, Structural)]
pub struct Header {
    /// The payload's length.
    pub len: usize,
    /// The sequence number.
    pub seq: u64,
    /// The class byte, decoded.
    pub class: Option<Class>,
}

impl Header {
    /// The header the first bytes spell, in the mathematical sense.
    pub open spec fn spec_parse(bytes: Seq<u8>) -> Option<Header> {
        if bytes.len() < HEADER || bytes[0] != MAGIC_LOW || bytes[1] != MAGIC_HIGH {
            None
        } else {
            Some(
                Header {
                    len: from_le(bytes.subrange(2, 4)) as usize,
                    seq: from_le(bytes.subrange(4, 12)) as u64,
                    class: Class::spec_of(bytes[12]),
                },
            )
        }
    }

    /// The whole record's length when the header is plausible.
    pub open spec fn spec_record_len(self) -> Option<usize> {
        if self.len > MAX_PAYLOAD || self.class is None || self.seq == 0 {
            None
        } else {
            Some((OVERHEAD + self.len) as usize)
        }
    }

    /// Read a header out of the first [`HEADER`] bytes, or nothing when the
    /// magic is not there.
    pub fn parse(bytes: &[u8]) -> (r: Option<Self>)
        ensures
            r == Header::spec_parse(bytes@),
    {
        if bytes.len() < HEADER || bytes[0] != MAGIC_LOW || bytes[1] != MAGIC_HIGH {
            return None;
        }
        let len: u64 = read_le(&bytes[2..4]);
        let seq: u64 = read_le(&bytes[4..12]);
        proof {
            crate::bytes::lemma_spans();
            crate::bytes::lemma_from_le_bound(bytes@.subrange(2, 4));
        }
        Some(Header { len: len as usize, seq, class: Class::of(bytes[12]) })
    }

    /// The whole record's length, if the header is plausible: a payload under
    /// the cap, a class this build can read and a position.
    pub fn record_len(&self) -> (r: Option<usize>)
        ensures
            r == self.spec_record_len(),
    {
        if self.len > MAX_PAYLOAD || self.class.is_none() || self.seq == 0 {
            return None;
        }
        Some(framed_len(self.len))
    }
}

/// A record read back whole and verified.
#[derive(Debug, Clone, Copy, PartialEq, Eq)]
pub struct Found<'a> {
    /// The sequence number.
    pub seq: u64,
    /// The class.
    pub class: Class,
    /// The payload.
    pub payload: &'a [u8],
}

impl<'a> View for Found<'a> {
    type V = Entry;

    open spec fn view(&self) -> Entry {
        Entry { seq: self.seq, class: self.class, payload: self.payload@ }
    }
}

/// The length of the record the first bytes claim to be, when the header is
/// plausible and the bytes hold all of it.
pub open spec fn claimed_len(bytes: Seq<u8>) -> Option<usize> {
    match Header::spec_parse(bytes) {
        Some(header) => match header.spec_record_len() {
            Some(len) if len <= bytes.len() => Some(len),
            _ => None,
        },
        None => None,
    }
}

/// The record at the front of `bytes`, when `crc` is the checksum computed
/// over what it covers.
pub open spec fn verified_under(bytes: Seq<u8>, crc: u32) -> Option<Entry> {
    match claimed_len(bytes) {
        Some(len) => if from_le(bytes.subrange(len - 4, len as int)) == crc {
            Some(
                Entry {
                    seq: Header::spec_parse(bytes)->0.seq,
                    class: Header::spec_parse(bytes)->0.class->0,
                    payload: bytes.subrange(HEADER as int, len - 4),
                },
            )
        } else {
            None
        },
        None => None,
    }
}

/// The record at the front of `bytes`, when the magic, the header and the CRC
/// hold.
pub open spec fn verified(bytes: Seq<u8>) -> Option<Entry> {
    match claimed_len(bytes) {
        Some(len) => verified_under(bytes, crc_of(bytes.subrange(2, len - 4))),
        None => None,
    }
}

/// The bytes the CRC of the record at the front of `bytes` covers, when the
/// header is plausible and the record is all there.
pub fn covered(bytes: &[u8]) -> (r: Option<&[u8]>)
    ensures
        match claimed_len(bytes@) {
            Some(len) => r matches Some(c) && c@ == bytes@.subrange(2, len - 4),
            None => r is None,
        },
{
    let header = match Header::parse(bytes) {
        Some(header) => header,
        None => return None,
    };
    let len: usize = match header.record_len() {
        Some(len) => len,
        None => return None,
    };
    if bytes.len() < len {
        return None;
    }
    Some(&bytes[2..len - 4])
}

/// Hand back the record at the front of `bytes`, or nothing when the magic or
/// the header does not hold or `crc` is not the one it carries.
pub fn verify_under(bytes: &[u8], crc: u32) -> (r: Option<Found<'_>>)
    ensures
        match verified_under(bytes@, crc) {
            Some(entry) => r matches Some(found) && found@ == entry,
            None => r is None,
        },
{
    let header = match Header::parse(bytes) {
        Some(header) => header,
        None => return None,
    };
    let len: usize = match header.record_len() {
        Some(len) => len,
        None => return None,
    };
    if bytes.len() < len {
        return None;
    }
    let class = match header.class {
        Some(class) => class,
        None => return None,
    };
    let carried: u64 = read_le(&bytes[len - 4..len]);
    if carried != crc as u64 {
        return None;
    }
    Some(Found { seq: header.seq, class, payload: &bytes[HEADER..len - 4] })
}

/// Verify the record at the start of `bytes` and hand it back, or nothing when
/// the magic, the header or the CRC does not hold.
pub fn verify(bytes: &[u8]) -> (r: Option<Found<'_>>)
    ensures
        match verified(bytes@) {
            Some(entry) => r matches Some(found) && found@ == entry,
            None => r is None,
        },
{
    match covered(bytes) {
        Some(covered) => verify_under(bytes, crc32(covered)),
        None => None,
    }
}

/// A record's image is as long as its payload and its overhead.
pub proof fn lemma_image_len(seq: u64, class: Class, payload: Seq<u8>, crc: u32)
    ensures
        image_under(seq, class, payload, crc).len() == OVERHEAD + payload.len(),
{
    broadcast use crate::bytes::lemma_le_len;

}

/// What was framed reads back: the image of a record, whatever bytes follow
/// it, verifies as exactly that record.
pub proof fn law_a_framed_record_reads_back(
    seq: u64,
    class: Class,
    payload: Seq<u8>,
    rest: Seq<u8>,
)
    requires
        seq > 0,
        payload.len() <= MAX_PAYLOAD,
    ensures
        verified(image(seq, class, payload) + rest) == Some(Entry { seq, class, payload }),
        claimed_len(image(seq, class, payload) + rest) == Some(
            (OVERHEAD + payload.len()) as usize,
        ),
{
    broadcast use crate::bytes::lemma_le_len;

    let covered = covered_bytes(seq, class, payload);
    let crc = crc_of(covered);
    let bytes = image(seq, class, payload) + rest;
    let len = OVERHEAD + payload.len();
    lemma_image_len(seq, class, payload, crc);
    crate::bytes::lemma_spans();
    assert(bytes.subrange(2, 4) =~= le(payload.len(), 2));
    assert(bytes.subrange(4, 12) =~= le(seq as nat, 8));
    assert(bytes[12] == class.spec_byte());
    crate::bytes::lemma_le_round_trip(payload.len(), 2);
    crate::bytes::lemma_le_round_trip(seq as nat, 8);
    crate::bytes::lemma_le_round_trip(crc as nat, 4);
    assert(bytes.subrange(len - 4, len as int) =~= le(crc as nat, 4));
    assert(bytes.subrange(2, len - 4) =~= covered);
    assert(bytes.subrange(HEADER as int, len - 4) =~= payload);
}

/// A record without its magic is not a record, whatever follows.
pub proof fn law_no_magic_no_record(bytes: Seq<u8>)
    requires
        bytes.len() < 2 || bytes[0] != MAGIC_LOW || bytes[1] != MAGIC_HIGH,
    ensures
        verified(bytes) is None,
        Header::spec_parse(bytes) is None,
{
}

/// The record at the front depends on the bytes of that record alone: bytes
/// past its claimed length do not matter.
pub proof fn law_only_the_records_own_bytes_matter(a: Seq<u8>, b: Seq<u8>)
    requires
        claimed_len(a) is Some,
        claimed_len(a)->0 <= b.len(),
        a.subrange(0, claimed_len(a)->0 as int) == b.subrange(0, claimed_len(a)->0 as int),
    ensures
        claimed_len(b) == claimed_len(a),
        verified(b) == verified(a),
{
    let len = claimed_len(a)->0 as int;
    assert forall|i: int| 0 <= i < len implies a[i] == b[i] by {
        assert(a.subrange(0, len)[i] == b.subrange(0, len)[i]);
    }
    assert(a.subrange(2, 4) =~= b.subrange(2, 4));
    assert(a.subrange(4, 12) =~= b.subrange(4, 12));
    assert(a.subrange(2, len - 4) =~= b.subrange(2, len - 4));
    assert(a.subrange(len - 4, len) =~= b.subrange(len - 4, len));
    assert(a.subrange(HEADER as int, len - 4) =~= b.subrange(HEADER as int, len - 4));
}

/// A bit through the register keeps two registers apart.
proof fn lemma_bit_apart(a: u32, b: u32)
    requires
        a != b,
    ensures
        crc_bit(a) != crc_bit(b),
{
    assert((if a & 1 == 1 {
        (a >> 1) ^ 0xEDB8_8320
    } else {
        a >> 1
    }) != (if b & 1 == 1 {
        (b >> 1) ^ 0xEDB8_8320
    } else {
        b >> 1
    })) by (bit_vector)
        requires
            a != b,
    ;
}

/// Bits through the register keep two registers apart.
proof fn lemma_bits_apart(a: u32, b: u32, n: nat)
    requires
        a != b,
    ensures
        crc_bits(a, n) != crc_bits(b, n),
    decreases n,
{
    if n > 0 {
        lemma_bits_apart(a, b, (n - 1) as nat);
        lemma_bit_apart(crc_bits(a, (n - 1) as nat), crc_bits(b, (n - 1) as nat));
    }
}

/// Bytes that differ in one place have different checksums.
proof fn lemma_crc_apart(a: Seq<u8>, b: Seq<u8>, i: int)
    requires
        a.len() == b.len(),
        0 <= i < a.len(),
        a[i] != b[i],
        forall|j: int| 0 <= j < a.len() && j != i ==> a[j] == b[j],
    ensures
        crc_register(a) != crc_register(b),
        crc_of(a) != crc_of(b),
    decreases a.len(),
{
    let x = crc_register(a.drop_last());
    let y = crc_register(b.drop_last());
    let p = a.last();
    let q = b.last();
    if i == a.len() - 1 {
        assert(a.drop_last() =~= b.drop_last());
        assert(x ^ (p as u32) != x ^ (q as u32)) by (bit_vector)
            requires
                p != q,
        ;
    } else {
        assert forall|j: int| 0 <= j < a.drop_last().len() && j != i implies a.drop_last()[j]
            == b.drop_last()[j] by {
            assert(a[j] == b[j]);
        }
        lemma_crc_apart(a.drop_last(), b.drop_last(), i);
        assert(a[a.len() - 1] == b[b.len() - 1]);
        assert(x ^ (p as u32) != y ^ (p as u32)) by (bit_vector)
            requires
                x != y,
        ;
    }
    lemma_bits_apart(x ^ (p as u32), y ^ (q as u32), 8);
    let r = crc_register(a);
    let t = crc_register(b);
    assert(r ^ 0xFFFF_FFFF != t ^ 0xFFFF_FFFF) by (bit_vector)
        requires
            r != t,
    ;
}

/// One damaged byte is found: a record with any one of its bytes changed, but
/// for the two that say its length, does not verify.
pub proof fn law_one_damaged_byte_is_found(bytes: Seq<u8>, i: int, byte: u8)
    requires
        verified(bytes) is Some,
        0 <= i < claimed_len(bytes)->0,
        i != 2 && i != 3,
        byte != bytes[i],
    ensures
        verified(bytes.update(i, byte)) is None,
{
    let len = claimed_len(bytes)->0 as int;
    let damaged = bytes.update(i, byte);
    assert(damaged.subrange(2, 4) =~= bytes.subrange(2, 4));
    if claimed_len(damaged) is Some && i >= 4 {
        assert(claimed_len(damaged) == Some(len as usize));
        let was = bytes.subrange(2, len - 4);
        let now = damaged.subrange(2, len - 4);
        let kept = bytes.subrange(len - 4, len);
        let found = damaged.subrange(len - 4, len);
        if i < len - 4 {
            assert(found =~= kept);
            assert(was[i - 2] != now[i - 2]);
            lemma_crc_apart(was, now, i - 2);
        } else {
            assert(was =~= now);
            assert(kept[i - (len - 4)] != found[i - (len - 4)]);
            if from_le(kept) == from_le(found) {
                crate::bytes::lemma_from_le_round_trip(kept);
                crate::bytes::lemma_from_le_round_trip(found);
            }
        }
    }
}

} // verus!
