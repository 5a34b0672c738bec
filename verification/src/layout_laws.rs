//! Where each value stands in the bytes that are kept and sent, and which bytes
//! are refused.

use vstd::prelude::*;
use vstd::utf8::valid_utf8;

use crate::body::{Body, Malformed};
use crate::bytes::{
    from_le, le, lemma_from_le_bound, lemma_le_len, lemma_le_round_trip, lemma_spans,
};
use crate::concern::{ConcernState, ElementAt, Severity};
use crate::idents::{ClientId, Generation};
use crate::record::{image, unframed, Class, Header, Unframed};
use crate::release::{CommsRelease, ReleaseModel};
use crate::secret::{ControllerKey, Secret};
use crate::session_ask::{says, Said};
use crate::session_state::Reply;
use crate::session_wire::Outcome;
use crate::text::{text_at, TextModel};

verus! {

broadcast use lemma_le_len;

/// A record is laid out as the magic 01 89, the payload's length in two bytes,
/// the sequence in eight, the class in one, the payload and a checksum of four;
/// so it is seventeen bytes longer than its payload.
pub proof fn law_a_record_is_laid_out(seq: u64, class: Class, payload: Seq<u8>)
    requires
        payload.len() <= 256,
    ensures
        ({
            let bytes = image(seq, class, payload);
            &&& bytes.len() == payload.len() + 17
            &&& bytes[0] == 0x01
            &&& bytes[1] == 0x89
            &&& from_le(bytes.subrange(2, 4)) == payload.len()
            &&& from_le(bytes.subrange(4, 12)) == seq
            &&& bytes[12] == if class == Class::A {
                0xA0u8
            } else {
                0xB0u8
            }
            &&& bytes.subrange(13, 13 + payload.len() as int) == payload
        }),
{
    let bytes = image(seq, class, payload);
    lemma_spans();
    assert(bytes.subrange(2, 4) =~= le(payload.len(), 2));
    assert(bytes.subrange(4, 12) =~= le(seq as nat, 8));
    lemma_le_round_trip(payload.len(), 2);
    lemma_le_round_trip(seq as nat, 8);
    assert(bytes.subrange(13, 13 + payload.len() as int) =~= payload);
}

/// A class is its byte, and no other byte is one.
pub proof fn law_a_class_is_its_byte(class: Class, byte: u8)
    ensures
        Class::spec_of(class.spec_byte()) == Some(class),
        Class::spec_of(byte) is Some <==> byte == 0xA0 || byte == 0xB0,
        Class::spec_of(0xA0) == Some(Class::A),
{
}

/// A header is plausible with a payload inside 256 bytes, a class there is and a
/// sequence that is not zero; its record is then seventeen bytes longer than its
/// payload.
pub proof fn law_a_header_is_plausible(header: Header)
    ensures
        header.spec_record_len() is Some <==> header.len <= 256 && header.class is Some
            && header.seq != 0,
        header.spec_record_len() matches Some(len) ==> len == header.len + 17,
{
}

/// A record is framed where its payload is inside the cap, its sequence is not
/// zero and it has room; else it is refused for the first of these that fails.
pub proof fn law_a_record_is_unframed_for_its_reason(has: nat, seq: u64, payload: nat)
    requires
        has <= usize::MAX,
        payload <= usize::MAX,
    ensures
        ({
            let why = unframed(has, seq, payload);
            &&& why == Some(Unframed::PayloadTooLong(payload as usize)) <==> payload > 256
            &&& why == Some(Unframed::ZeroIsNotAPosition) <==> payload <= 256 && seq == 0
            &&& why is None <==> payload <= 256 && seq != 0 && has >= payload + 17
            &&& why matches Some(Unframed::NoRoom { needs, has: room }) ==> needs == payload + 17
                && room == has && has < payload + 17
        }),
{
}

/// A text reads where its length is inside its field, the field is all there and
/// what the length takes of it is UTF-8; it is then those bytes. A length past
/// the field is refused where it stands, anything else where the field starts.
pub proof fn law_a_text_reads_or_is_refused_where_it_fails(bytes: Seq<u8>, at: nat, cap: nat)
    requires
        at + 1 + cap <= bytes.len() <= usize::MAX,
    ensures
        ({
            let read = text_at(bytes, at, cap);
            let len = bytes[at as int];
            &&& len > cap ==> read == Err::<TextModel, Malformed>(Malformed { at: at as usize })
            &&& len <= cap && !valid_utf8(bytes.subrange(at as int + 1, at + 1 + len)) ==> read == Err::<
                TextModel,
                Malformed,
            >(Malformed { at: (at + 1) as usize })
            &&& len <= cap && valid_utf8(bytes.subrange(at as int + 1, at + 1 + len)) ==> (read matches Ok(
                text,
            ) && text.bytes() == bytes.subrange(at as int + 1, at + 1 + len))
        }),
{
    let len = bytes[at as int];
    if len <= cap {
        let field = bytes.subrange(at as int + 1, at + 1 + cap as int);
        assert(field.take(len as int) =~= bytes.subrange(at as int + 1, at + 1 + len));
    }
}

/// A release record says there is none with a first byte of zero and one with a
/// first byte of one; its version follows, then the image's length, the digest
/// and when it was authorised. Any other first byte is refused there.
pub proof fn law_a_release_is_laid_out(bytes: Seq<u8>)
    requires
        bytes.len() == 96,
    ensures
        ({
            let read = <CommsRelease as Body<96>>::reading(bytes);
            &&& read == Ok::<Option<ReleaseModel>, Malformed>(None) <==> bytes[0] == 0
            &&& bytes[0] > 1 ==> read == Err::<Option<ReleaseModel>, Malformed>(Malformed { at: 0 })
            &&& bytes[0] == 1 ==> (read is Ok <==> text_at(bytes, 1, 32) is Ok)
            &&& read matches Ok(Some(release)) ==> {
                &&& Ok::<TextModel, Malformed>(release.version) == text_at(bytes, 1, 32)
                &&& release.image_len == from_le(bytes.subrange(34, 38))
                &&& release.digest == bytes.subrange(38, 70)
                &&& release.authorised_at.0 == from_le(bytes.subrange(70, 78))
            }
        }),
{
    lemma_spans();
    lemma_from_le_bound(bytes.subrange(34, 38));
    lemma_from_le_bound(bytes.subrange(70, 78));
}

/// A secret's record is the device id and then the printed secret, which is
/// refused where it is all zeros; a controller key's is the key, refused alike.
pub proof fn law_a_secret_is_laid_out(bytes: Seq<u8>)
    requires
        bytes.len() == 48,
    ensures
        ({
            let read = <Secret as Body<48>>::reading(bytes);
            &&& read is Ok <==> exists|i: int| 16 <= i < 48 && #[trigger] bytes[i] != 0
            &&& read matches Ok(secret) ==> secret.device_id == bytes.take(16) && secret.printed
                == bytes.skip(16)
            &&& read matches Err(why) ==> why.at == 16
            &&& <ControllerKey as Body<32>>::reading(bytes.skip(16)) is Ok <==> read is Ok
            &&& <ControllerKey as Body<32>>::reading(bytes.skip(16)) matches Ok(key) ==> key
                == bytes.skip(16)
        }),
{
    let printed = bytes.subrange(16, 48);
    assert(printed =~= bytes.skip(16));
    assert(bytes.subrange(0, 16) =~= bytes.take(16));
    assert forall|i: int| 16 <= i < 48 implies #[trigger] bytes[i] == printed[i - 16] by {}
    if exists|i: int| 16 <= i < 48 && #[trigger] bytes[i] != 0 {
        let i = choose|i: int| 16 <= i < 48 && #[trigger] bytes[i] != 0;
        assert(printed[i - 16] != 0);
    }
    if !crate::secret::all_zero(printed) {
        let j = choose|j: int| 0 <= j < printed.len() && printed[j] != 0;
        assert(bytes[j + 16] != 0);
    }
}

/// A severity is told by its number, and no two share one.
pub proof fn law_the_numbers_of_a_severity(a: Severity, b: Severity)
    ensures
        a.spec_number() == b.spec_number() <==> a == b,
        a.spec_number() == 1 <==> a == Severity::Info,
        a.spec_number() == 2 <==> a == Severity::Warning,
        a.spec_number() == 3 <==> a == Severity::Fault,
        a.spec_number() == 4 <==> a == Severity::Protection,
{
}

/// A concern's state is told by its number, and no two share one.
pub proof fn law_the_numbers_of_a_concerns_state(a: ConcernState, b: ConcernState)
    ensures
        a.spec_number() == b.spec_number() <==> a == b,
        a.spec_number() == 1 <==> a == ConcernState::Active,
        a.spec_number() == 2 <==> a == ConcernState::ActiveAcked,
        a.spec_number() == 3 <==> a == ConcernState::LatchedCleared,
        a.spec_number() == 4 <==> a == ConcernState::ClearingBlocked,
        a.spec_number() == 5 <==> a == ConcernState::Cleared,
{
}

/// A series has sixteen elements, counted from one.
pub proof fn law_a_series_has_sixteen_elements(position: u8, r: Option<ElementAt>)
    requires
        call_ensures(ElementAt::new, (position,), r),
    ensures
        r is Some <==> 1 <= position <= 16,
        r matches Some(at) ==> at@ == position,
{
}

/// An enrolment's end names its slot and generation where there is one, and no
/// two ends share a number.
pub proof fn law_an_enrolments_end_names_its_slot(id: ClientId, generation: Generation)
    ensures
        Outcome::Enrolled(id, generation).words() == (1u8, Some((id@, generation@))),
        Outcome::Reclaimed(id, generation).words() == (5u8, Some((id@, generation@))),
        Outcome::WindowClosed.words().0 == 2 && Outcome::WindowClosed.words().1 is None,
        Outcome::TableFull.words().0 == 4 && Outcome::TableFull.words().1 is None,
        Outcome::NotStored.words().0 == 7 && Outcome::NotStored.words().1 is None,
{
}

/// A reply is what the step says: an answer that fits is at the head of the
/// buffer and nothing past it moves; a step that is silent, or whose answer does
/// not fit, answers nothing, and a silent one leaves the buffer as it was.
pub proof fn law_a_reply_is_what_is_said(r: Reply, before: Seq<u8>, after: Seq<u8>, said: Said)
    requires
        says(r, before, after, said),
    ensures
        r.close == said.close,
        said.silent ==> r.answer is None && after == before && r.note == said.unfit,
        !said.silent && said.image is Some && (said.image->0).len() <= before.len() ==> {
            let bytes = said.image->0;
            &&& r.answer == Some(bytes.len() as usize)
            &&& r.note == said.note
            &&& after.len() == before.len()
            &&& after.take(bytes.len() as int) == bytes
            &&& after.skip(bytes.len() as int) == before.skip(bytes.len() as int)
        },
        said.image is None || (said.image->0).len() > before.len() ==> r.answer is None && r.note
            == said.unfit,
{
    if let Some(bytes) = said.image {
        if !said.silent && bytes.len() <= before.len() {
            assert(after.take(bytes.len() as int) =~= bytes);
            assert(after.skip(bytes.len() as int) =~= before.skip(bytes.len() as int));
        }
    }
}

} // verus!
