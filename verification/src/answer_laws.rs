//! What each message is answered: who may do what, which refusal comes when, and
//! what a step leaves as it was.

use vstd::prelude::*;
use vstd::utf8::encode_utf8;

use crate::clients::{law_a_role_reaches_what_it_may, occupant_of, Role};
use crate::idents::{ClientId, Conn, Epoch, Generation, ReqId};
use crate::request::{
    Admission, Permit, Recorded, ReservationModel, Unchanged, Verdict, DUPLICATE, REUSED, SHADOWED,
};
use crate::secret::SecretModel;
use crate::session_ask::{AskModel, Asker, Next, Said, StoreModel, WifiAsked};
use crate::session_model::{
    lemma_a_changed_row_is_found, lemma_a_row_carries_its_handle, lemma_a_row_changed_twice,
    lemma_a_row_put_back, SessionsModel,
};
use crate::session_state::{
    forgotten, live_of, spec_alive, spec_idle, spec_outlived, spec_time_expired, Addressed,
    AskedTime, Binding, Bound, Challenge, Compat, Computed, Done, Facts, KeysModel, OfferModel,
    PairingModel, RowModel, SessionNote, TaskModel, WorkModel, UNSPECIFIED,
};
use crate::session_steps::{report_model, spec_on_session, spec_private};
use crate::session_wire::{
    command_ack, command_reads, empty_reads, enrol_answer, enrolling_client, error_body,
    error_image, get_config_reads, hello_reads, opened_channel, opening, pair_reads, pair_refusal,
    scan_reads, sealed_channel, sealing, set_config_ack, set_config_reads, time_ack, time_reads,
    vouch_answer, vouch_reads, Command, CommandModel, Fault, SetConfig, TimeOutcome, Unread,
    VouchAnswer,
};
use crate::tick::Tick;

verus! {

broadcast use {
    lemma_a_changed_row_is_found,
    lemma_a_row_changed_twice,
    lemma_a_row_put_back,
    lemma_a_row_carries_its_handle,
};

/// Whether a step says this error bare, and nothing else.
pub open spec fn bare(said: Said, to: Addressed, code: u16) -> bool {
    &&& !said.silent
    &&& said.close is None
    &&& said.note == Some(SessionNote::Refused(code))
    &&& said.image == error_image(code, to.conn@, to.req_id.0)
}

/// Whether a step answers with this body, sealed for the session on its handle,
/// and closes nothing.
pub open spec fn sealed_as(
    said: Said,
    m: SessionsModel,
    to: Addressed,
    kind: u8,
    body: Option<Seq<u8>>,
) -> bool {
    &&& !said.silent
    &&& said.close is None
    &&& m.session(to.conn) is Some && body is Some ==> said.image == sealing(
        (m.session(to.conn)->0).channel,
        kind,
        to.conn@,
        to.req_id.0,
        body->0,
    )
}

/// Whether a step answers with this error, sealed.
pub open spec fn sealed_refusal(said: Said, m: SessionsModel, to: Addressed, code: u16) -> bool {
    sealed_as(said, m, to, 0xff, error_body(code)) && said.note == Some(SessionNote::Refused(code))
}

/// Whether a step says nothing but this note.
pub open spec fn quiet(said: Said, note: Option<SessionNote>) -> bool {
    said.silent && said.close is None && said.note == note
}

/// The role of the enrolment a session is bound to, where its slot still holds
/// that very enrolment.
pub open spec fn role_on(keys: KeysModel, binding: Binding) -> Option<Role> {
    if keys.epoch is Some && 1 <= binding.client@ <= keys.clients.len() && keys.clients[
    binding.client@ - 1] is Some && (keys.clients[binding.client@ - 1]->0).generation
        == binding.generation {
        Some((keys.clients[binding.client@ - 1]->0).role)
    } else {
        None
    }
}

/// Which rights the roles have of those the messages ask for.
proof fn lemma_rights()
    ensures
        Role::Owner.spec_mask() & 1u16 == 1u16,
        Role::Owner.spec_mask() & 3u16 == 3u16,
        Role::Owner.spec_mask() & 2u16 == 2u16,
        Role::Owner.spec_mask() & 8u16 == 8u16,
        Role::Owner.spec_mask() & 32u16 == 32u16,
        Role::Admin.spec_mask() & 1u16 == 1u16,
        Role::Admin.spec_mask() & 3u16 != 3u16,
        Role::Admin.spec_mask() & 2u16 != 2u16,
        Role::Admin.spec_mask() & 8u16 == 8u16,
        Role::Admin.spec_mask() & 32u16 == 32u16,
        Role::Viewer.spec_mask() & 1u16 != 1u16,
        Role::Viewer.spec_mask() & 3u16 != 3u16,
        Role::Viewer.spec_mask() & 2u16 != 2u16,
        Role::Viewer.spec_mask() & 8u16 != 8u16,
        Role::Viewer.spec_mask() & 32u16 != 32u16,
{
    law_a_role_reaches_what_it_may(1);
    law_a_role_reaches_what_it_may(2);
    law_a_role_reaches_what_it_may(3);
    law_a_role_reaches_what_it_may(8);
    law_a_role_reaches_what_it_may(32);
    assert(1u16 & 130 == 0 && 2u16 & 130 != 0 && 3u16 & 130 != 0 && 8u16 & 130 == 0 && 32u16 & 130
        == 0) by (bit_vector);
}

/// A sealed answer moves the session's keys and nothing else: the rest of its
/// row, every other row, the keys of the unit and the clock's question stay.
pub proof fn law_an_answer_moves_only_the_keys(
    m: SessionsModel,
    to: Addressed,
    kind: u8,
    body: Seq<u8>,
    row: RowModel,
    binding: Binding,
)
    requires
        m.row(to.conn) == Some(row),
        row.bound == Bound::Session(binding),
    ensures
        ({
            let (after, said) = m.answered(to, kind, Some(body));
            &&& sealed_as(said, m, to, kind, Some(body))
            &&& said.note is None
            &&& after.row(to.conn) == Some(
                RowModel {
                    bound: Bound::Session(
                        Binding {
                            channel: sealed_channel(
                                binding.channel,
                                kind,
                                to.conn@,
                                to.req_id.0,
                                body,
                            ),
                            ..binding
                        },
                    ),
                    ..row
                },
            )
            &&& after.keys == m.keys
            &&& after.time == m.time
            &&& after.computing == m.computing
        }),
{
}

/// An error about the link is told bare; every other refusal of a request that
/// opened is sealed.
pub proof fn law_a_refusal_is_sealed_but_the_links(m: SessionsModel, to: Addressed, code: u16)
    ensures
        code < 0x100 ==> sealed_refusal(m.refused_under(to, code).1, m, to, code),
        code >= 0x100 ==> bare(m.refused_under(to, code).1, to, code) && m.refused_under(
            to,
            code,
        ).0 == m,
{
}

/// The network and cloud sections are read by the owner and the admins and by
/// nobody else, who is told error 20; every other section is read by any
/// session.
pub proof fn law_a_private_section_is_read_by_who_may(
    m: SessionsModel,
    to: Addressed,
    binding: Binding,
    section: u16,
)
    ensures
        ({
            let (after, next) = m.gets(to, binding, Ok(section));
            let role = role_on(m.keys, binding);
            let may = section != 0x20 && section != 0x21 || role == Some(Role::Owner) || role
                == Some(Role::Admin);
            &&& may ==> after == m && (next matches Next::Asks(AskModel::ReadSection(ask))
                && ask.section == section && ask.of.to == to && ask.of.serial == binding.serial)
            &&& !may ==> (next matches Next::Said(said) && sealed_refusal(said, m, to, 20))
        }),
{
    lemma_rights();
}

/// The network and cloud sections are written by the owner alone, every other
/// by the owner and the admins; anybody else's write becomes a question about
/// the version held, and nothing is written.
pub proof fn law_a_section_is_written_by_who_may(
    m: SessionsModel,
    to: Addressed,
    binding: Binding,
    section: u16,
    expected: u32,
    body: Seq<u8>,
)
    ensures
        ({
            let (after, next) = m.sets(to, binding, Ok((section, expected, body)));
            let role = role_on(m.keys, binding);
            let private = section == 0x20 || section == 0x21;
            let may = role == Some(Role::Owner) || (!private && role == Some(Role::Admin));
            let of = Asker { to, serial: binding.serial };
            &&& after == m
            &&& may ==> next == Next::Asks(
                AskModel::SetSection { of, section, expected_version: expected, body },
            )
            &&& !may ==> (next matches Next::Asks(AskModel::SectionVersion(ask)) && ask.of == of
                && ask.section == section)
        }),
{
    lemma_rights();
}

/// A clock write is handed on with a new ticket, authorised exactly for the
/// owner and the admins, while none is waiting; while one is, it is told error
/// 7 and the one that waits stays.
pub proof fn law_a_clock_write_is_handed_on_once(
    m: SessionsModel,
    to: Addressed,
    binding: Binding,
    at: u64,
    now: Tick,
)
    ensures
        ({
            let (after, said) = m.time_asked(to, binding, Ok(at), now);
            let role = role_on(m.keys, binding);
            &&& m.time is Some ==> sealed_refusal(said, m, to, 7) && after.time == m.time
            &&& m.time is None ==> {
                &&& said.silent
                &&& said.note matches Some(SessionNote::TimeAsked(asked)) && asked.at == at
                    && asked.ticket != m.tickets && (asked.authorised <==> role == Some(Role::Owner)
                    || role == Some(Role::Admin)) && after.time == Some(
                    AskedTime { ticket: asked.ticket, to, serial: binding.serial, asked: now },
                ) && after.tickets == asked.ticket
                &&& after.rows == m.rows
                &&& after.keys == m.keys
            }
        }),
{
    lemma_rights();
}

/// The recorder's answer to a clock write goes out as the write's outcome and
/// the clock it names, or as error 7 where the recorder had none; and the
/// question no longer waits.
pub proof fn law_a_clock_write_is_answered(
    m: SessionsModel,
    asked: AskedTime,
    binding: Binding,
    outcome: TimeOutcome,
    at: Option<u64>,
)
    requires
        m.time == Some(asked),
        m.session(asked.to.conn) == Some(binding),
        binding.serial == asked.serial,
    ensures
        ({
            let (after, said) = m.time_answered(asked.ticket, Some((outcome, at)));
            let (late, busy) = m.time_answered(asked.ticket, None);
            &&& after.time is None
            &&& late.time is None
            &&& sealed_as(said, m, asked.to, 0x8a, time_ack(outcome.spec_number(), at))
            &&& sealed_refusal(busy, m, asked.to, 7)
        }),
{
    let quieted = SessionsModel { time: None, ..m };
    assert(quieted.rows == m.rows);
    assert(quieted.row(asked.to.conn) == m.row(asked.to.conn));
}

/// The radio's list is for the owner and the admins; anybody else is told error
/// 20. A refresh says whether the client is the owner, whether there is a
/// network section, and whether the link's ends agree.
pub proof fn law_a_scan_is_for_who_may(
    m: SessionsModel,
    to: Addressed,
    binding: Binding,
    refresh: bool,
    facts: Facts<'_>,
)
    ensures
        ({
            let (after, next) = m.scans(to, binding, Ok(refresh), facts);
            let role = role_on(m.keys, binding);
            let may = role == Some(Role::Owner) || role == Some(Role::Admin);
            &&& may ==> after == m && (next matches Next::Asks(AskModel::Wifi(ask)) && ask.of.to
                == to && ask.of.serial == binding.serial && (ask.asked matches WifiAsked::Scan(
                scan,
            ) && (scan is Some <==> refresh) && (scan matches Some(asked) ==> (asked.authorised
                <==> role == Some(Role::Owner)) && (asked.provisioned <==> facts.network_version
                != 0) && (asked.agreed <==> facts.link == Some(Compat::Agreed)))))
            &&& !may ==> (next matches Next::Said(said) && sealed_refusal(said, m, to, 20))
        }),
{
    lemma_rights();
}

/// Any session may ask how the radio stands, under the version of the network
/// section.
pub proof fn law_a_status_is_for_any_session(
    m: SessionsModel,
    to: Addressed,
    binding: Binding,
    facts: Facts<'_>,
)
    ensures
        m.reports(to, binding, Ok(()), facts).0 == m,
        m.reports(to, binding, Ok(()), facts).1 matches Next::Asks(AskModel::Wifi(ask)) && ask.of.to
            == to && ask.of.serial == binding.serial && ask.asked == WifiAsked::Status(
            facts.network_version,
        ),
{
}

/// A body that does not read is refused with the code it was given, whichever
/// message it is of, and nothing else comes of it.
pub proof fn law_a_body_that_does_not_read_is_refused(
    m: SessionsModel,
    to: Addressed,
    binding: Binding,
    code: u16,
    now: Tick,
    facts: Facts<'_>,
    operation: Seq<u8>,
)
    requires
        code < 0x100,
    ensures
        m.gets(to, binding, Err(code)).1 matches Next::Said(said) && sealed_refusal(
            said,
            m,
            to,
            code,
        ),
        m.sets(to, binding, Err(code)).1 matches Next::Said(said) && sealed_refusal(
            said,
            m,
            to,
            code,
        ),
        m.scans(to, binding, Err(code), facts).1 matches Next::Said(said) && sealed_refusal(
            said,
            m,
            to,
            code,
        ),
        m.reports(to, binding, Err(code), facts).1 matches Next::Said(said) && sealed_refusal(
            said,
            m,
            to,
            code,
        ),
        m.commands(to, binding, operation, Err(code)).1 matches Next::Said(said)
            && sealed_refusal(said, m, to, code),
        sealed_refusal(m.time_asked(to, binding, Err(code), now).1, m, to, code),
        m.time_asked(to, binding, Err(code), now).0.time == m.time,
        sealed_refusal(m.vouches(to, binding, operation, Err(code)).1, m, to, code),
        sealed_refusal(m.goodbye(to, Err(code)).1, m, to, 1),
{
}

/// A goodbye that reads is answered with an empty body and ends the session.
pub proof fn law_a_goodbye_is_answered(m: SessionsModel, to: Addressed)
    ensures
        sealed_as(m.goodbye(to, Ok(())).1, m, to, 0x8c, Some(seq![0xa0u8])),
        m.goodbye(to, Ok(())).1.note == Some(SessionNote::Unbound(to.conn)),
        m.session(to.conn) is Some ==> m.goodbye(to, Ok(())).0.session(to.conn) is None,
{
}

/// The messages of a session, which arrive sealed, and no others.
pub proof fn law_the_messages_of_a_session(kind: u8)
    ensures
        spec_on_session(kind) <==> kind == 0x03 || (0x05 <= kind <= 0x18 && kind != 0x0b && kind
            != 0x13),
        spec_private(0x20) && spec_private(0x21),
        forall|section: u16| spec_private(section) ==> 0x20 <= section <= 0x21,
{
}

/// A request that opened goes where its message says, and its body as that
/// message reads it; one too large for an operation is told error 5, one nobody
/// serves error 2, and what is no request of a session error 1.
pub proof fn law_a_request_goes_where_its_message_says(
    m: SessionsModel,
    to: Addressed,
    binding: Binding,
    kind: u8,
    payload: Seq<u8>,
    now: Tick,
    facts: Facts<'_>,
)
    ensures
        ({
            let (after, next) = m.serves(to, binding, kind, payload, now, facts);
            let fits = payload.len() <= 960;
            &&& kind == 0x0c ==> (after, next) == (
                m.goodbye(to, empty_reads(0x0c, payload)).0,
                Next::Said(m.goodbye(to, empty_reads(0x0c, payload)).1),
            )
            &&& kind == 0x11 ==> (after, next) == m.scans(to, binding, scan_reads(payload), facts)
            &&& kind == 0x12 ==> (after, next) == m.reports(
                to,
                binding,
                empty_reads(0x12, payload),
                facts,
            )
            &&& kind == 0x06 ==> (after, next) == m.gets(to, binding, get_config_reads(payload))
            &&& kind == 0x08 && fits ==> (after, next) == m.commands(
                to,
                binding,
                payload,
                command_reads(payload),
            )
            &&& kind == 0x07 && fits ==> (after, next) == m.sets(
                to,
                binding,
                set_config_reads(payload),
            )
            &&& kind == 0x0a && fits ==> (after, next) == (
                m.time_asked(to, binding, time_reads(payload), now).0,
                Next::Said(m.time_asked(to, binding, time_reads(payload), now).1),
            )
            &&& kind == 0x14 ==> (after, next) == (
                m.vouches(to, binding, payload, vouch_reads(payload)).0,
                Next::Said(m.vouches(to, binding, payload, vouch_reads(payload)).1),
            )
            &&& (kind == 0x07 || kind == 0x08 || kind == 0x0a) && !fits ==> (
            next matches Next::Said(said) && sealed_refusal(said, m, to, 5))
            &&& kind == 0x03 || kind == 0x05 || kind == 0x09 || 0x0d <= kind <= 0x10 || 0x15 <= kind
                <= 0x18 ==> (next matches Next::Said(said) && sealed_refusal(said, m, to, 2))
            &&& !spec_on_session(kind) ==> (next matches Next::Said(said) && sealed_refusal(
                said,
                m,
                to,
                1,
            ))
        }),
{
}

/// A client's frame goes where its message says: a discovery, the two messages
/// of a pairing and a session's opening to their own steps, a session's request
/// to be opened; an error is never answered, and anything else is told error 1.
pub proof fn law_a_frame_goes_where_its_message_says(
    m: SessionsModel,
    to: Addressed,
    kind: u8,
    frame: Seq<u8>,
    now: Tick,
    facts: Facts<'_>,
)
    ensures
        ({
            let (after, next) = m.routes(to, kind, frame, now, facts);
            &&& kind == 0x00 ==> (after, next) == (m, m.discovers(to, now, facts))
            &&& kind == 0x0b ==> (after, next) == m.pairs(
                to,
                frame,
                pair_reads(frame),
                now,
                facts,
            )
            &&& kind == 0x13 ==> (after, next) == (
                m.enrols(to, frame, now).0,
                Next::Said(m.enrols(to, frame, now).1),
            )
            &&& kind == 0x01 ==> (after, next) == m.hellos(to, frame, hello_reads(frame), now)
            &&& spec_on_session(kind) ==> (after, next) == m.seals(to, kind, frame, now, facts)
            &&& kind == 0xff ==> after == m && (next matches Next::Said(said) && quiet(
                said,
                Some(SessionNote::ClientError),
            ))
            &&& kind != 0x00 && kind != 0x01 && kind != 0x0b && kind != 0x13 && kind != 0xff
                && !spec_on_session(kind) ==> after == m && (next matches Next::Said(said) && bare(
                said,
                to,
                1,
            ))
        }),
{
}

/// A frame is refused before it is routed, for the first of these that holds,
/// and nothing changes: its four elements do not read, and it is told error 1
/// addressed to nobody; it carries handle zero, and it is not answered; the link
/// is not up; nobody announced its handle; it is a message of the link, one
/// nobody allocated, or one that does not read. Any other frame is routed, to
/// the handle and the request it names.
pub proof fn law_a_frame_is_refused_before_it_is_routed(
    m: SessionsModel,
    frame: Seq<u8>,
    handle: u16,
    req: u32,
    kind: Result<u8, Unread>,
    now: Tick,
    facts: Facts<'_>,
)
    ensures
        ({
            let to = Addressed { conn: Conn::spec_of(handle), req_id: ReqId(req) };
            let (after, next) = m.frames(frame, Some((handle, req)), kind, now, facts);
            let known = m.row(to.conn) is Some;
            let up = facts.link is Some;
            &&& handle == 0 ==> after == m && (next matches Next::Said(said) && quiet(
                said,
                Some(SessionNote::NoHandle),
            ))
            &&& handle != 0 && !up ==> after == m && (next matches Next::Said(said) && bare(
                said,
                to,
                0x102,
            ))
            &&& handle != 0 && up && !known ==> after == m && (next matches Next::Said(said)
                && bare(said, to, 0x103))
            &&& handle != 0 && up && known ==> {
                &&& kind == Err::<u8, Unread>(Unread::LinkLocal) ==> after == m && (
                next matches Next::Said(said) && bare(said, to, 0x101))
                &&& kind == Err::<u8, Unread>(Unread::Unknown) ==> after == m && (
                next matches Next::Said(said) && bare(said, to, 2))
                &&& kind == Err::<u8, Unread>(Unread::Malformed) ==> after == m && (
                next matches Next::Said(said) && bare(said, to, 1))
                &&& kind matches Ok(number) ==> (after, next) == m.routes(
                    to,
                    number,
                    frame,
                    now,
                    facts,
                )
            }
        }),
        ({
            let (after, next) = m.frames(frame, None, kind, now, facts);
            &&& after == m
            &&& next matches Next::Said(said) && !said.silent && said.image == error_image(1, 0, 0)
                && said.note == Some(SessionNote::Unreadable)
        }),
{
}

/// A session's request is opened under the session's own keys, which move with
/// it whatever it opens into; one that opens is served as heard now.
pub proof fn law_a_request_that_opens_is_heard(
    m: SessionsModel,
    to: Addressed,
    kind: u8,
    frame: Seq<u8>,
    now: Tick,
    facts: Facts<'_>,
    row: RowModel,
    binding: Binding,
)
    requires
        m.row(to.conn) == Some(row),
        row.bound == Bound::Session(binding),
        opening(binding.channel, frame) is Ok,
    ensures
        ({
            let heard = Binding {
                channel: opened_channel(binding.channel, frame),
                heard: now,
                ..binding
            };
            m.seals(to, kind, frame, now, facts) == m.with_row(
                to.conn,
                RowModel { bound: Bound::Session(heard), ..row },
            ).serves(to, heard, kind, opening(binding.channel, frame)->Ok_0, now, facts)
        }),
{
}

/// A refusal that counts is counted against its connection, and one that does
/// not is not; both are told bare, with the code.
pub proof fn law_a_refusal_is_counted_where_it_counts(
    m: SessionsModel,
    to: Addressed,
    code: u16,
    now: Tick,
    row: RowModel,
)
    requires
        m.row(to.conn) == Some(row),
    ensures
        m.refused(to, code, false, now).0 == m,
        bare(m.refused(to, code, false, now).1, to, code),
        m.refused(to, code, true, now).1.image == error_image(code, to.conn@, to.req_id.0),
        m.refused(to, code, true, now).1.note == Some(SessionNote::Refused(code)),
        m.refused(to, code, true, now).0.row(to.conn) matches Some(kept) && kept.failures
            == row.counting(now) && kept.challenge == row.challenge && kept.conn == row.conn,
        m.faulted(to, Fault { code: Some(code), counts: true }, now) == m.refused(
            to,
            code,
            true,
            now,
        ),
        m.faulted(to, Fault { code: Some(code), counts: false }, now) == m.refused(
            to,
            code,
            false,
            now,
        ),
        m.faulted(to, Fault { code: None, counts: true }, now).0 == m,
        quiet(
            m.faulted(to, Fault { code: None, counts: true }, now).1,
            Some(SessionNote::Dropped),
        ),
{
}

/// The lives of things, on the tick: a challenge two minutes, a pairing two
/// minutes, a session a quarter of an hour without a word, a failure one minute,
/// a clock write one minute.
pub proof fn law_how_long_things_live(at: Tick, now: Tick)
    ensures
        spec_alive(at, now) <==> now.0 < at.0 + 120_000,
        now.0 >= at.0 ==> (spec_outlived(at, now) <==> now.0 >= at.0 + 120_000),
        now.0 < at.0 ==> spec_outlived(at, now),
        spec_idle(at, now) <==> now.0 >= at.0 + 900_000,
        forgotten(at, now) <==> now.0 >= at.0 + 60_000,
        now.0 >= at.0 ==> (spec_time_expired(at, now) <==> now.0 >= at.0 + 60_000),
        now.0 < at.0 ==> spec_time_expired(at, now),
{
}

/// A presented challenge is handed on while it lives, is spent either way, and
/// a pairing under way goes with it.
pub proof fn law_a_live_challenge_is_handed_on(
    m: SessionsModel,
    to: Addressed,
    now: Tick,
    row: RowModel,
    bytes: [u8; 16],
    minted: Tick,
)
    requires
        m.row(to.conn) == Some(row),
        row.challenge == (Challenge::Live { bytes, minted }),
    ensures
        ({
            let (after, presented) = m.presents(to, now);
            &&& presented == if now.0 < minted.0 + 120_000 {
                Some(bytes)
            } else {
                None
            }
            &&& after.row(to.conn) matches Some(kept) && kept.challenge == Challenge::Spent
                && kept.bound == row.bound && (presented is Some ==> kept.pairing is Nothing
                && kept.work is Idle && kept.attempt != row.attempt)
            &&& after.keys == m.keys
        }),
{
}

/// A pairing's first message that opened is refused for the first of these that
/// holds: a label longer than 32 bytes, told error 1; a window that is closed,
/// answered 2; a table with no slot for it, answered 4. Else its second message
/// is asked for. Nothing changes either way.
pub proof fn law_a_pairing_goes_on_where_there_is_a_slot(
    m: SessionsModel,
    to: Addressed,
    frame: Seq<u8>,
    prologue: Seq<u8>,
    secret: SecretModel,
    kind: u8,
    label: Seq<char>,
    now: Tick,
    facts: Facts<'_>,
)
    ensures
        ({
            let (after, next) = m.pair_opens(
                to,
                frame,
                prologue,
                secret,
                Ok((kind, label)),
                now,
                facts,
            );
            let long = encode_utf8(label).len() > 32;
            let place = crate::clients::allocation(
                crate::clients::table_of(m.keys.clients),
                None,
                label,
            );
            &&& after == m
            &&& long ==> (next matches Next::Said(said) && bare(said, to, 1))
            &&& !long && !facts.pairing_open ==> (next matches Next::Said(said) && !said.silent
                && said.image == pair_refusal(frame, prologue, secret.device_id, secret.printed, 2))
            &&& !long && facts.pairing_open && place is Full ==> (next matches Next::Said(said)
                && !said.silent && said.image == pair_refusal(
                frame,
                prologue,
                secret.device_id,
                secret.printed,
                4,
            ))
            &&& !long && facts.pairing_open && !(place is Full) ==> next == Next::Asks(
                AskModel::PairSecret {
                    to,
                    frame,
                    prologue,
                    offer: OfferModel { kind, label },
                    since: now,
                },
            )
        }),
{
}

/// A pairing message that did not read or open abandons the pairing its row was
/// in, and is refused as its fault says.
pub proof fn law_a_pairing_that_fails_is_abandoned(
    m: SessionsModel,
    to: Addressed,
    code: u16,
    now: Tick,
    row: RowModel,
)
    requires
        m.row(to.conn) == Some(row),
    ensures
        ({
            let (after, said) = m.pair_refused(to, Fault { code: Some(code), counts: false }, now);
            &&& bare(said, to, code)
            &&& after.row(to.conn) matches Some(kept) && kept.pairing is Nothing && kept.work is Idle
                && kept.attempt != row.attempt && kept.bound == row.bound
        }),
{
}

/// The secret of a pairing's second message: drawn, the message is queued on
/// its row with the first and what it offered; not drawn, error 18; and a first
/// message longer than a frame is told error 5.
pub proof fn law_a_second_message_is_queued(
    m: SessionsModel,
    to: Addressed,
    frame: Seq<u8>,
    prologue: Seq<u8>,
    offer: OfferModel,
    since: Tick,
    secret: [u8; 32],
    row: RowModel,
)
    requires
        m.row(to.conn) == Some(row),
    ensures
        ({
            let (after, said) = m.pair_draws(to, frame, prologue, offer, since, Some(secret));
            let (same, none) = m.pair_draws(to, frame, prologue, offer, since, None);
            &&& same == m
            &&& !none.silent && none.image == error_image(18, to.conn@, to.req_id.0) && none.note
                == Some(SessionNote::EntropyUnavailable)
            &&& frame.len() > 1032 ==> after == m && bare(said, to, 5)
            &&& frame.len() <= 1032 ==> {
                &&& quiet(said, Some(SessionNote::Queued(to.conn)))
                &&& after.row(to.conn) matches Some(kept) && kept.bound == row.bound
                    && kept.attempt == row.attempt && kept.pairing == (PairingModel::Replying {
                    offer,
                    since,
                }) && (kept.work matches WorkModel::Queued(job) && job.ticket.conn == row.conn
                    && job.ticket.attempt == row.attempt && job.ticket.req_id == to.req_id
                    && job.task == (TaskModel::Proceed { frame, prologue, ephemeral: secret }))
            }
        }),
{
}

/// A pairing's third message is queued where its row waits for one, in time and
/// within a frame; anywhere else the pairing is abandoned and it is told error
/// 10.
pub proof fn law_a_third_message_is_queued_where_one_is_awaited(
    m: SessionsModel,
    to: Addressed,
    frame: Seq<u8>,
    now: Tick,
    row: RowModel,
)
    requires
        m.row(to.conn) == Some(row),
    ensures
        ({
            let (after, said) = m.enrols(to, frame, now);
            let awaited = row.pairing is Awaiting && row.pairing->Awaiting_since.0 <= now.0 < (
            row.pairing->Awaiting_since).0 + 120_000 && frame.len() <= 1032;
            &&& awaited ==> {
                &&& quiet(said, Some(SessionNote::Queued(to.conn)))
                &&& after.row(to.conn) matches Some(kept) && kept.bound == row.bound
                    && kept.attempt == row.attempt && kept.pairing == (PairingModel::Enrolling {
                    offer: row.pairing->Awaiting_offer,
                    since: row.pairing->Awaiting_since,
                }) && (kept.work matches WorkModel::Queued(job) && job.ticket.req_id == to.req_id
                    && job.task == (TaskModel::Enrol {
                    frame,
                    awaiting: row.pairing->Awaiting_awaiting,
                }))
            }
            &&& !awaited ==> {
                &&& bare(said, to, 10)
                &&& after.row(to.conn) matches Some(kept) && kept.pairing is Nothing && kept.work
                    is Idle && kept.bound == row.bound
            }
        }),
{
}

/// An enrolment whose challenge was drawn is refused where the window has
/// closed, answered 2, or no slot is left, answered 4; else its slot is asked
/// to be written with the client's key, its role and what it offered. The
/// challenge is the row's either way.
pub proof fn law_an_enrolment_is_stored_where_there_is_a_slot(
    m: SessionsModel,
    to: Addressed,
    enrolling: km43::Enrolling,
    tag_key: [u8; 32],
    offer: OfferModel,
    drawn: [u8; 16],
    now: Tick,
    facts: Facts<'_>,
)
    ensures
        ({
            let (after, next) = m.enrol_draws(
                to,
                enrolling,
                tag_key,
                offer,
                Some(drawn),
                now,
                facts,
            );
            let place = crate::clients::allocation(
                crate::clients::table_of(m.keys.clients),
                Some(enrolling_client(enrolling)),
                offer.label,
            );
            &&& after.keys == m.keys
            &&& next is Said && m.row(to.conn) is Some ==> after.row(to.conn) == Some(
                RowModel {
                    challenge: Challenge::Live { bytes: drawn, minted: now },
                    ..m.row(to.conn)->0
                },
            )
            &&& !facts.pairing_open ==> (next matches Next::Said(said) && !said.silent && said.image
                == enrol_answer(enrolling, (2, None), drawn@))
            &&& facts.pairing_open && place is Full ==> (next matches Next::Said(said)
                && !said.silent && said.image == enrol_answer(enrolling, (4, None), drawn@))
            &&& facts.pairing_open && !(place is Full) ==> (next matches Next::Asks(
                AskModel::Store(ask),
            ) && ask.to == to && ask.enrolling == enrolling && ask.next_challenge == drawn
                && ask.place == place && ask.client == enrolling_client(enrolling) && ask.tag_key
                == tag_key && ask.offer == offer && Some((ask.id, ask.role)) == place.spec_slot())
        }),
        m.enrol_draws(to, enrolling, tag_key, offer, None, now, facts).0 == m,
        m.enrol_draws(to, enrolling, tag_key, offer, None, now, facts).1 matches Next::Said(said)
            && said.image == error_image(18, to.conn@, to.req_id.0) && said.note == Some(
            SessionNote::EntropyUnavailable,
        ),
{
}

/// A slot that landed is answered as enrolled where it was free, 1, and as keyed
/// again where it was not, 5, with its number and its generation; the table then
/// holds what was asked to be written; and a write that did not land is answered
/// 7.
pub proof fn law_a_slot_that_landed_is_answered(
    m: SessionsModel,
    ask: StoreModel,
    generation: Generation,
)
    requires
        1 <= ask.id@ <= 8,
        m.keys.clients.len() == 8,
    ensures
        ({
            let (after, said) = m.enrol_stores(ask, Some(generation));
            let how: u8 = if ask.place is Free {
                1
            } else {
                5
            };
            &&& !said.silent
            &&& said.note == Some(SessionNote::Paired(ask.id))
            &&& said.image == enrol_answer(
                ask.enrolling,
                (how, Some((ask.id@, generation@))),
                ask.next_challenge@,
            )
            &&& after.keys.clients[ask.id@ - 1] matches Some(held) && held.role == ask.role
                && held.kind == ask.offer.kind && held.label == ask.offer.label && held.client
                == ask.client && held.generation == generation
            &&& after.keys.epoch == m.keys.epoch
            &&& after.rows == m.rows
        }),
        m.enrol_stores(ask, None).1.image == enrol_answer(
            ask.enrolling,
            (7, None),
            ask.next_challenge@,
        ),
        m.enrol_stores(ask, None).1.note == Some(SessionNote::TableNotStored),
{
}

/// A session's opening that does not read is told its code and spends nothing;
/// one without a live challenge is told error 14; one to a unit that can let
/// nobody in is told error 12; else the slots are asked whose key it is tagged
/// under.
pub proof fn law_an_opening_is_matched_under_a_live_challenge(
    m: SessionsModel,
    to: Addressed,
    frame: Seq<u8>,
    code: u16,
    now: Tick,
)
    ensures
        m.hellos(to, frame, Err(code), now).0 == m,
        m.hellos(to, frame, Err(code), now).1 matches Next::Said(said) && bare(said, to, code),
        ({
            let (after, next) = m.hellos(to, frame, Ok(()), now);
            let live = m.row(to.conn) is Some && live_of((m.row(to.conn)->0).challenge, now) is Some;
            let ready = m.keys.secret is Some && m.keys.epoch is Some && m.keys.controller;
            &&& !live ==> (next matches Next::Said(said) && bare(said, to, 14))
            &&& live && !ready ==> (next matches Next::Said(said) && said.image == error_image(
                12,
                to.conn@,
                to.req_id.0,
            ))
            &&& live && ready ==> (next matches Next::Asks(
                AskModel::Match { to: back, frame: opening, keys, .. },
            ) && back == to && opening == frame && keys == crate::clients::keys_in(
                m.keys.clients,
                m.keys.clients.len(),
            ))
            &&& after.keys == m.keys
        }),
{
}

/// An opening whose slot is found goes on for its secret, to the slot that was
/// found; one whose slot is empty by then is told error 12, and one that was not
/// matched is refused as the check says.
pub proof fn law_an_opening_goes_on_for_its_slot(
    m: SessionsModel,
    to: Addressed,
    frame: Seq<u8>,
    prologue: Seq<u8>,
    slot: ClientId,
    code: u16,
    counts: bool,
    now: Tick,
)
    ensures
        ({
            let (after, next) = m.hello_matches(to, frame, prologue, Ok(slot), now);
            let held = 1 <= slot@ <= m.keys.clients.len() && m.keys.clients[slot@ - 1] is Some;
            &&& after == m
            &&& held ==> next == Next::Asks(AskModel::HelloSecret { to, frame, prologue, slot })
            &&& !held ==> (next matches Next::Said(said) && bare(said, to, 12))
        }),
        m.hello_matches(to, frame, prologue, Err((code, counts)), now) == (
            m.refused(to, code, counts, now).0,
            Next::Said(m.refused(to, code, counts, now).1),
        ),
{
}

/// An opening with its secret is queued on its row under the slot's own keys,
/// with a report of this connection's handle, the log, the clock and the slot.
pub proof fn law_an_opening_is_queued_under_its_slots_keys(
    m: SessionsModel,
    to: Addressed,
    frame: Seq<u8>,
    prologue: Seq<u8>,
    slot: ClientId,
    secret: [u8; 32],
    facts: Facts<'_>,
    row: RowModel,
)
    requires
        m.row(to.conn) == Some(row),
        1 <= slot@ <= m.keys.clients.len(),
        m.keys.clients[slot@ - 1] is Some,
        frame.len() <= 1032,
    ensures
        ({
            let (after, said) = m.hello_draws(to, frame, prologue, slot, Some(secret), facts);
            let held = m.keys.clients[slot@ - 1]->0;
            &&& quiet(said, Some(SessionNote::Queued(to.conn)))
            &&& after.row(to.conn) matches Some(kept) && kept.bound == row.bound && kept.pairing
                == row.pairing && kept.attempt == row.attempt && (
            kept.work matches WorkModel::Queued(job) && job.ticket.req_id == to.req_id
                && job.ticket.attempt == row.attempt && (job.task matches TaskModel::Hello {
                frame: opening,
                prologue: words,
                tag_key,
                enrolled,
                ephemeral,
                report,
            } && opening == frame && words == prologue && tag_key == held.tag_key && enrolled
                == held.client && ephemeral == secret && report.conn == to.conn && report.client_id
                == slot && report.generation == held.generation && report.log == facts.log
                && report.time_known == facts.time_known))
        }),
        m.hello_draws(to, frame, prologue, slot, None, facts).0 == m,
        m.hello_draws(to, frame, prologue, slot, None, facts).1.image == error_image(
            18,
            to.conn@,
            to.req_id.0,
        ),
{
}

/// A proof made for the enrolment its slot still holds binds a session on its
/// row, to that slot, heard now and under a new serial, and sends the answer
/// that was computed; one for an enrolment that has gone is told error 12.
pub proof fn law_a_proof_binds_a_session(
    m: SessionsModel,
    done: Done,
    now: Tick,
    row: RowModel,
)
    requires
        m.row(done.ticket.conn) == Some(row),
        row.attempt == done.ticket.attempt,
        row.work is Computing,
        done.result is Bound,
    ensures
        ({
            let (after, next) = m.completed(done, now);
            let client = done.result->Bound_client_id;
            let generation = done.result->Bound_generation;
            let held = m.keys.epoch is Some && (occupant_of(m.keys.clients, client) matches Some(
                slot,
            ) && slot.generation == generation);
            let to = Addressed { conn: done.ticket.conn, req_id: done.ticket.req_id };
            &&& held ==> {
                &&& next matches Next::Said(said) && !said.silent && said.note == Some(
                    SessionNote::Bound(done.ticket.conn),
                )
                &&& after.session(done.ticket.conn) matches Some(binding) && binding.client == client
                    && binding.generation == generation && binding.heard == now && binding.serial
                    != m.bindings && binding.serial == after.bindings
                &&& after.row(done.ticket.conn) matches Some(kept) && kept.work is Idle
                    && kept.challenge == row.challenge
            }
            &&& !held ==> {
                &&& next matches Next::Said(said) && bare(said, to, 12)
                &&& after.row(done.ticket.conn) matches Some(kept) && kept.work is Idle && kept.bound
                    == row.bound
            }
        }),
{
    let back = m.back(done.ticket);
    assert(back.rows == m.rows);
    assert(back.row(done.ticket.conn) == m.row(done.ticket.conn));
    let idle = RowModel { work: WorkModel::Idle, ..row };
    assert(back.with_row(done.ticket.conn, idle).row(done.ticket.conn) == Some(idle));
    if let Computed::Bound { channel, answer, client_id, generation } = done.result {
        let serial = crate::session_steps::next_u32(m.bindings);
        let bound = RowModel {
            bound: Bound::Session(
                Binding { client: client_id, generation, channel, heard: now, serial },
            ),
            ..idle
        };
        let placed = back.with_row(done.ticket.conn, bound);
        assert(placed.row(done.ticket.conn) == Some(bound));
        let after = SessionsModel { bindings: serial, ..placed };
        assert(after.rows == placed.rows);
        assert(after.row(done.ticket.conn) == placed.row(done.ticket.conn));
    }
}

/// A pairing's second message that was computed goes out and its row waits for
/// the third; one whose row is in no such pairing any more is not sent.
pub proof fn law_a_second_message_computed_is_sent(
    m: SessionsModel,
    done: Done,
    now: Tick,
    row: RowModel,
)
    requires
        m.row(done.ticket.conn) == Some(row),
        row.attempt == done.ticket.attempt,
        row.work is Computing,
        done.result is Proceeded,
    ensures
        ({
            let (after, next) = m.completed(done, now);
            &&& row.pairing is Replying ==> {
                &&& next matches Next::Said(said) && !said.silent && said.image == Some(
                    done.result->Proceeded_answer@,
                )
                &&& after.row(done.ticket.conn) matches Some(kept) && kept.pairing == (
                PairingModel::Awaiting {
                    awaiting: done.result->Proceeded_awaiting,
                    offer: row.pairing->Replying_offer,
                    since: row.pairing->Replying_since,
                }) && kept.work is Idle && kept.bound == row.bound
            }
            &&& !(row.pairing is Replying) ==> (next matches Next::Said(said) && quiet(
                said,
                Some(SessionNote::Stale),
            ))
        }),
{
    let back = m.back(done.ticket);
    assert(back.rows == m.rows);
    assert(back.row(done.ticket.conn) == m.row(done.ticket.conn));
}

/// A vouch is queued for the session's own slot and generation under the unit's
/// epoch, where its row is free; its answer is sealed for the session that
/// asked, and for no other.
pub proof fn law_a_vouch_is_for_the_sessions_own_slot(
    m: SessionsModel,
    to: Addressed,
    binding: Binding,
    payload: Seq<u8>,
    row: RowModel,
)
    requires
        m.row(to.conn) == Some(row),
        row.pairing is Nothing,
        row.work is Idle,
    ensures
        ({
            let (after, said) = m.vouches(to, binding, payload, Ok(()));
            &&& m.keys.epoch is None ==> sealed_refusal(said, m, to, 12)
            &&& m.keys.epoch matches Some(under) ==> quiet(
                said,
                Some(SessionNote::Queued(to.conn)),
            ) && (after.row(to.conn) matches Some(kept) && kept.bound == row.bound && (
            kept.work matches WorkModel::Queued(job) && job.ticket.req_id == to.req_id && job.task
                == (TaskModel::Vouch {
                request: payload,
                epoch: under,
                bound: (binding.client, binding.generation),
                serial: binding.serial,
            })))
        }),
{
}

/// A row that is in a pairing or whose job is taken tells a vouch error 7.
pub proof fn law_a_busy_row_refuses_a_vouch(
    m: SessionsModel,
    to: Addressed,
    binding: Binding,
    payload: Seq<u8>,
    row: RowModel,
)
    requires
        m.row(to.conn) == Some(row),
        !(row.pairing is Nothing) || !(row.work is Idle),
    ensures
        sealed_refusal(m.vouches(to, binding, payload, Ok(())).1, m, to, 7),
{
}

/// A vouch that was computed is sealed for the session that asked for it and is
/// dropped where another is on the row.
pub proof fn law_a_vouch_is_answered_to_who_asked(
    m: SessionsModel,
    done: Done,
    now: Tick,
    row: RowModel,
    binding: Binding,
)
    requires
        m.row(done.ticket.conn) == Some(row),
        row.attempt == done.ticket.attempt,
        row.work is Computing,
        row.bound == Bound::Session(binding),
        done.result is Vouched,
    ensures
        ({
            let (after, next) = m.completed(done, now);
            let to = Addressed { conn: done.ticket.conn, req_id: done.ticket.req_id };
            let answer: VouchAnswer = done.result->Vouched_answer;
            &&& binding.serial == done.result->Vouched_serial ==> (next matches Next::Said(said)
                && sealed_as(said, m, to, 0x94, vouch_answer(answer.words())))
            &&& binding.serial != done.result->Vouched_serial ==> (next matches Next::Said(said)
                && quiet(said, Some(SessionNote::Stale)))
        }),
{
    let back = m.back(done.ticket);
    assert(back.rows == m.rows);
    assert(back.row(done.ticket.conn) == m.row(done.ticket.conn));
    let idle = RowModel { work: WorkModel::Idle, ..row };
    assert(back.with_row(done.ticket.conn, idle).row(done.ticket.conn) == Some(idle));
}

/// A command that reads is put to the dedup table for the session's own client,
/// with the body it was read from.
pub proof fn law_a_command_is_put_to_the_table(
    m: SessionsModel,
    to: Addressed,
    binding: Binding,
    operation: Seq<u8>,
    command: CommandModel,
)
    ensures
        m.commands(to, binding, operation, Ok(command)).0 == m,
        m.commands(to, binding, operation, Ok(command)).1 matches Next::Asks(
            AskModel::Reserve { of, command: asked, operation: body },
        ) && of.to == to && of.serial == binding.serial && asked.client == binding.client
            && asked.command == command && asked.header.kind == 0x08 && asked.header.conn == to.conn
            && asked.header.req_id == to.req_id && body == operation,
{
}

/// The table's word on a command is answered to the session that asked, each
/// word its own way: a fresh entry runs, an entry left in flight is asked about
/// once, what executed is a duplicate, what ran in shadow is shadowed again, a
/// number reused is rejected, and everything else is error 7. A session bound
/// since is told nothing.
pub proof fn law_the_tables_word_is_answered(
    m: SessionsModel,
    of: Asker,
    command: ReservationModel,
    operation: Seq<u8>,
    verdict: Result<Verdict, Unchanged>,
    retried: bool,
    binding: Binding,
)
    requires
        m.session(of.to.conn) == Some(binding),
    ensures
        ({
            let (after, next) = m.command_decided(of, command, operation, verdict, retried);
            let id = command.command.cmd_id;
            &&& binding.serial != of.serial ==> after == m && (next matches Next::Said(said)
                && quiet(said, None))
            &&& binding.serial == of.serial ==> match verdict {
                Ok(Verdict::Fresh(seat)) => after == m && (next matches Next::Asks(
                    AskModel::Finish { of: back, reservation },
                ) && back == of && reservation.seat == seat && reservation.command
                    == command.command && reservation.client == command.client),
                Ok(Verdict::InFlight(seat)) => if retried {
                    next matches Next::Said(said) && sealed_refusal(said, m, of.to, 7)
                } else {
                    after == m && (next matches Next::Asks(AskModel::Again { of: back, retry })
                        && back == of && retry.of.seat == seat && retry.of.command
                        == command.command && retry.operation == operation)
                },
                Ok(Verdict::Already(Recorded::Accepted)) => next matches Next::Said(said)
                    && sealed_as(said, m, of.to, 0x88, command_ack(id, 3, DUPLICATE@)),
                Ok(Verdict::Already(Recorded::Shadowed)) => next matches Next::Said(said)
                    && sealed_as(said, m, of.to, 0x88, command_ack(id, 6, SHADOWED@)),
                Ok(Verdict::ReusedId) => next matches Next::Said(said) && sealed_as(
                    said,
                    m,
                    of.to,
                    0x88,
                    command_ack(id, 2, REUSED@),
                ),
                Err(_) => next matches Next::Said(said) && sealed_as(
                    said,
                    m,
                    of.to,
                    0xff,
                    error_body(7),
                ) && said.note == Some(SessionNote::NotKept),
                _ => next matches Next::Said(said) && sealed_refusal(said, m, of.to, 7),
            }
        }),
{
}

/// A command that ran is rejected with its own number, to the session that
/// asked; a record of it that did not land is noted, and the answer is the same.
pub proof fn law_a_command_that_ran_is_rejected(
    m: SessionsModel,
    of: Asker,
    reservation: ReservationModel,
    recorded: Result<(), Unchanged>,
    binding: Binding,
)
    requires
        m.session(of.to.conn) == Some(binding),
    ensures
        ({
            let (after, said) = m.command_finished(of, reservation, recorded);
            &&& binding.serial == of.serial ==> sealed_as(
                said,
                m,
                of.to,
                0x88,
                command_ack(reservation.command.cmd_id, 2, UNSPECIFIED@),
            ) && (said.note == Some(SessionNote::NotKept) <==> recorded is Err)
            &&& binding.serial != of.serial ==> after == m && quiet(said, None)
        }),
{
}

/// A section's write is acknowledged to the session that asked, with the section,
/// the version it has now and the outcome; a write that failed is told its code.
pub proof fn law_a_sections_write_is_acknowledged(
    m: SessionsModel,
    of: Asker,
    section: u16,
    version: u32,
    outcome: SetConfig,
    code: u16,
    binding: Binding,
)
    requires
        m.session(of.to.conn) == Some(binding),
    ensures
        binding.serial == of.serial ==> sealed_as(
            m.section_set(of, section, Ok((version, outcome))).1,
            m,
            of.to,
            0x87,
            set_config_ack(section, version, outcome.spec_number()),
        ) && sealed_refusal(m.section_set(of, section, Err(code)).1, m, of.to, code),
        binding.serial != of.serial ==> m.section_set(of, section, Ok((version, outcome))).0 == m
            && quiet(m.section_set(of, section, Ok((version, outcome))).1, None),
{
}

/// A body that was read is sealed as it is for the session that asked, and for
/// no other; one that was not is refused with its code.
pub proof fn law_a_body_read_is_sealed_as_it_is(
    m: SessionsModel,
    of: Asker,
    kind: u8,
    body: Seq<u8>,
    code: u16,
    binding: Binding,
)
    requires
        m.session(of.to.conn) == Some(binding),
        code < 0x100,
    ensures
        binding.serial == of.serial ==> sealed_as(
            m.body_read(of, kind, Ok(body)).1,
            m,
            of.to,
            kind,
            Some(body),
        ) && sealed_refusal(m.body_read(of, kind, Err(code)).1, m, of.to, code),
        binding.serial != of.serial ==> m.body_read(of, kind, Ok(body)).0 == m && quiet(
            m.body_read(of, kind, Ok(body)).1,
            None,
        ),
{
}

/// A pairing whose third message opened ends on its row and asks for the
/// challenge its answer carries, where the unit can let anybody in; one whose
/// row is in no such pairing any more is not gone on with.
pub proof fn law_an_enrolment_that_opened_goes_on(
    m: SessionsModel,
    done: Done,
    now: Tick,
    row: RowModel,
)
    requires
        m.row(done.ticket.conn) == Some(row),
        row.attempt == done.ticket.attempt,
        row.work is Computing,
        done.result is Enrolled,
    ensures
        ({
            let (after, next) = m.completed(done, now);
            let to = Addressed { conn: done.ticket.conn, req_id: done.ticket.req_id };
            let ready = m.keys.secret is Some && m.keys.epoch is Some && m.keys.controller;
            &&& after.row(done.ticket.conn) matches Some(kept) && kept.pairing is Nothing
                && kept.work is Idle && kept.bound == row.bound
            &&& row.pairing is Enrolling && ready ==> next == Next::Asks(
                AskModel::EnrolChallenge {
                    to,
                    enrolling: done.result->Enrolled_enrolling,
                    tag_key: done.result->Enrolled_tag_key,
                    offer: row.pairing->Enrolling_offer,
                },
            )
            &&& row.pairing is Enrolling && !ready ==> (next matches Next::Said(said) && said.image
                == error_image(18, to.conn@, to.req_id.0))
            &&& !(row.pairing is Enrolling) ==> (next matches Next::Said(said) && quiet(
                said,
                Some(SessionNote::Stale),
            ))
        }),
{
    let back = m.back(done.ticket);
    assert(back.rows == m.rows);
    assert(back.row(done.ticket.conn) == m.row(done.ticket.conn));
}

/// A check a worker found failed is refused as it says: a pairing's abandons the
/// pairing, an opening's leaves the row's session; and a result too large to
/// write is not answered.
pub proof fn law_a_failed_check_is_refused(
    m: SessionsModel,
    done: Done,
    now: Tick,
    row: RowModel,
)
    requires
        m.row(done.ticket.conn) == Some(row),
        row.attempt == done.ticket.attempt,
        row.work is Computing,
    ensures
        ({
            let (after, next) = m.completed(done, now);
            let to = Addressed { conn: done.ticket.conn, req_id: done.ticket.req_id };
            &&& done.result matches Computed::PairFailed(why) ==> {
                &&& why.code matches Some(code) ==> (next matches Next::Said(said) && said.image
                    == error_image(code, to.conn@, to.req_id.0))
                &&& why.code is None ==> (next matches Next::Said(said) && quiet(
                    said,
                    Some(SessionNote::Dropped),
                ))
                &&& after.row(to.conn) matches Some(kept) && kept.pairing is Nothing && kept.work
                    is Idle && kept.failures == if why.code is Some && why.counts {
                    row.counting(now)
                } else {
                    row.failures
                }
            }
            &&& done.result matches Computed::HelloFailed { code, counts } ==> {
                &&& next matches Next::Said(said) && said.image == error_image(
                    code,
                    to.conn@,
                    to.req_id.0,
                )
                &&& after.row(to.conn) matches Some(kept) && kept.work is Idle && (!counts
                    ==> kept.bound == row.bound && kept.pairing == row.pairing && kept.failures
                    == row.failures) && (counts ==> kept.failures == row.counting(now))
            }
            &&& done.result is Unwritable ==> (next matches Next::Said(said) && quiet(
                said,
                Some(SessionNote::TooLarge),
            )) && (after.row(to.conn) matches Some(kept) && kept.pairing is Nothing && kept.work
                is Idle)
        }),
{
    let back = m.back(done.ticket);
    assert(back.rows == m.rows);
    assert(back.row(done.ticket.conn) == m.row(done.ticket.conn));
}

/// What a permit, an answer or a refusal of the dedup table becomes on the
/// session: a permit asks for the command to be run, an answer is acknowledged
/// as it is, and a refusal is told its code, noted where an entry was not kept.
pub proof fn law_an_admission_is_answered(
    m: SessionsModel,
    of: Asker,
    admission: Admission,
    binding: Binding,
)
    requires
        m.session(of.to.conn) == Some(binding),
    ensures
        ({
            let (after, next) = m.admits(of, admission);
            &&& admission matches Admission::Execute(Permit::Command(run)) ==> after == m
                && (next matches Next::Asks(AskModel::Finish { of: back, reservation }) && back
                == of && reservation == run@)
            &&& admission matches Admission::Answered(ack) ==> (next matches Next::Said(said)
                && sealed_as(
                said,
                m,
                of.to,
                0x88,
                command_ack(ack.cmd_id, ack.outcome.spec_number(), ack.detail@),
            ))
            &&& admission matches Admission::Refused(why) ==> (next matches Next::Said(said)
                && !said.silent && (why is NotKept <==> said.note == Some(SessionNote::NotKept))
                && (why.spec_code() < 0x100 ==> sealed_as(
                said,
                m,
                of.to,
                0xff,
                error_body(why.spec_code()),
            )))
            &&& admission is InFlight || (admission is Execute && admission->Execute_0 is Write) ==> (
            next matches Next::Said(said) && sealed_refusal(said, m, of.to, 2))
        }),
{
}

/// A frame opens on a session exactly where it is a session's request, the link
/// is up, a session is on its handle and the frame opens under its keys; and it
/// is that session's.
pub proof fn law_a_frame_opens_on_the_session_of_its_handle(
    m: SessionsModel,
    frame: Seq<u8>,
    handle: u16,
    req: u32,
    kind: u8,
    facts: Facts<'_>,
)
    ensures
        ({
            let taken = m.taken(frame, Some((handle, req)), Ok(kind), facts);
            let session = m.session(Conn::spec_of(handle));
            &&& taken is Some <==> handle != 0 && facts.link is Some && spec_on_session(kind)
                && session is Some && opening((session->0).channel, frame) is Ok
            &&& taken matches Some((conn, serial)) ==> conn == Conn::spec_of(handle) && serial == (
            session->0).serial
            &&& m.taken(frame, None, Ok(kind), facts) is None
            &&& forall|why: Unread|
                m.taken(frame, Some((handle, req)), Err::<u8, Unread>(why), facts) is None
        }),
{
}

/// A factory reset leaves nobody enrolled where the slots were freed or the epoch
/// moved, and everybody where neither did; the epoch is the one the part holds
/// then, and the unit's own secret and key stay.
pub proof fn law_a_factory_reset_leaves_nobody(
    m: SessionsModel,
    epoch: Option<Epoch>,
    freed: bool,
    i: int,
)
    requires
        m.keys.clients.len() == 8,
        0 <= i < 8,
    ensures
        ({
            let after = m.reset_to(epoch, freed);
            &&& after.keys.epoch == epoch
            &&& after.keys.clients.len() == 8
            &&& freed || epoch != m.keys.epoch ==> after.keys.clients[i] is None
            &&& !freed && epoch == m.keys.epoch ==> after.keys.clients[i] == m.keys.clients[i]
            &&& after.keys.secret == m.keys.secret
            &&& after.keys.controller == m.keys.controller
            &&& after.rows == m.rows
        }),
{
}

/// A text of a report is the text up to 32 bytes, and nothing past them.
pub proof fn law_a_report_says_a_text_or_nothing(text: Seq<char>)
    ensures
        encode_utf8(text).len() <= 32 ==> report_model(text).bytes() == encode_utf8(text),
        encode_utf8(text).len() > 32 ==> report_model(text).bytes() == Seq::<u8>::empty(),
        report_model(text).field.len() == 32,
{
    if encode_utf8(text).len() <= 32 {
        assert(report_model(text).bytes() =~= encode_utf8(text));
    } else {
        assert(report_model(text).bytes() =~= Seq::<u8>::empty());
    }
}

} // verus!
