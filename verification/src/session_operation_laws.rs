//! What the sessions' own operations do, call by call.

use vstd::prelude::*;

use crate::answer_laws::sealed_as;
use crate::body::Refused;
use crate::connection_laws::{
    law_a_row_is_found_by_its_handle, law_rows_and_sessions_are_counted,
    law_silent_sessions_are_closed,
};
use crate::discovery_laws::{
    can_let_in, law_a_discover_is_told_how_the_unit_stands, string_of, told,
};
use crate::idents::{ClientId, Conn, Epoch};
use crate::session::{
    Expired, NetworkHeld, NetworkReset, ResetFailed, Sessions, TimeAnswer,
};
use crate::session_ask::{says, ReadAsk, Said, Step, VersionAsk, WifiAsk};
use crate::session_state::{
    live_of, Addressed, Binding, Bound, CloseReason, Facts, Keys, Reply, RowModel,
};
use crate::session_wire::{set_config_ack, TimeOutcome};
use crate::site_rows::{ReadSignals, Sel};
use crate::tick::Tick;
use crate::topology::{reported, Reported};

verus! {

/// A `Discover` on a row with a live challenge is answered with a message that
/// says the unit is provisioned exactly when at least one client slot is
/// occupied, pairing open exactly when the window is, and the row's challenge;
/// and nothing of the sessions moves.
pub proof fn law_a_discover_is_answered(
    sessions: Sessions,
    to: Addressed,
    now: Tick,
    facts: &Facts<'_>,
    dst: &mut [u8],
    r: Step,
    challenge: [u8; 16],
)
    requires
        call_ensures(Sessions::discover, (&sessions, to, now, facts, dst), r),
        sessions.model().sound(),
        can_let_in(sessions.model().keys, *facts),
        sessions.model().row(to.conn) matches Some(row) && live_of(row.challenge, now) == Some(
            challenge,
        ),
    ensures
        ({
            let clients = sessions.model().keys.clients;
            &&& r matches Step::Said(reply) && (reply.answer matches Some(len) ==> {
                let bytes = final(dst)@.take(len as int);
                &&& told(bytes, 5) == Some(seq![0xf5u8]) <==> exists|i: int|
                    0 <= i < clients.len() && (#[trigger] clients[i]) is Some
                &&& told(bytes, 5) == Some(seq![0xf4u8]) <==> forall|i: int|
                    0 <= i < clients.len() ==> (#[trigger] clients[i]) is None
                &&& told(bytes, 6) == Some(seq![0xf5u8]) <==> facts.pairing_open
                &&& told(bytes, 6) == Some(seq![0xf4u8]) <==> !facts.pairing_open
                &&& told(bytes, 7) matches Some(item) && string_of(item) == challenge@
            })
        }),
{
    law_a_discover_is_told_how_the_unit_stands(sessions.model(), to, now, *facts, challenge);
    if let Step::Said(reply) = r {
        let said = sessions.model().discovers(to, now, *facts)->Said_0;
        let bytes = said.image->0;
        assert(vstd::slice::spec_slice_len(&*old(dst)) == old(dst)@.len());
        if bytes.len() <= old(dst)@.len() {
            assert(final(dst)@.take(bytes.len() as int) =~= bytes);
            assert(reply.answer == Some(bytes.len() as usize));
            assert((bytes.len() as usize) as int == bytes.len());
        }
    }
}

/// Sessions begin with no connection, and with the keys they were given.
pub proof fn law_sessions_begin_with_nobody(keys: Keys, r: Sessions, conn: Conn)
    requires
        call_ensures(Sessions::new, (keys,), r),
    ensures
        r.model().row(conn) is None,
        r.model().keys == keys@,
        r.model().time is None,
        r.model().computing is None,
{
    law_a_row_is_found_by_its_handle(r.model(), conn, 0);
}

/// Rows and sessions are counted as they are, and a handle's session and whose
/// it is are told as they are.
pub proof fn law_sessions_tell_how_they_stand(
    sessions: Sessions,
    conn: Conn,
    allocated: u8,
    bound: usize,
    is_bound: bool,
    proven: Option<ClientId>,
)
    requires
        sessions.model().sound(),
        call_ensures(Sessions::allocated, (&sessions,), allocated),
        call_ensures(Sessions::bound, (&sessions,), bound),
        call_ensures(Sessions::is_bound, (&sessions, conn), is_bound),
        call_ensures(Sessions::proven, (&sessions, conn), proven),
    ensures
        allocated == sessions.model().rows.filter(|row: Option<RowModel>| row is Some).len(),
        bound == sessions.model().rows.filter(
            |row: Option<RowModel>| row is Some && (row->0).bound is Session,
        ).len(),
        is_bound <==> proven is Some,
        proven matches Some(client) ==> (sessions.model().row(conn) matches Some(row)
            && row.bound is Session && row.bound->Session_0.client == client),
        is_bound <==> (sessions.model().row(conn) matches Some(row) && row.bound is Session),
{
    let rows = sessions.model().rows;
    law_rows_and_sessions_are_counted(rows, 8);
    assert(rows.take(8) =~= rows);
}

/// Dropping everything leaves no row, and neither the keys nor the clock's
/// question are touched by it.
pub proof fn law_dropping_everything_leaves_no_row(sessions: &mut Sessions, conn: Conn)
    requires
        call_ensures(Sessions::drop_all, (sessions,), ()),
    ensures
        final(sessions).model().row(conn) is None,
        final(sessions).model().keys == old(sessions).model().keys,
        final(sessions).model().time == old(sessions).model().time,
{
    law_a_row_is_found_by_its_handle(final(sessions).model(), conn, 0);
}

/// A look at the time closes the connection of each session that was silent for
/// a quarter of an hour, and ends that session; it closes no other.
pub proof fn law_a_look_at_the_time_closes_the_silent(
    sessions: &mut Sessions,
    now: Tick,
    r: Expired,
    i: int,
    k: int,
)
    requires
        old(sessions).model().sound(),
        call_ensures(Sessions::tick, (sessions, now), r),
        0 <= i < 8,
    ensures
        ({
            let row = old(sessions).model().rows[i];
            let silent = row is Some && ((row->0).bound matches Bound::Session(binding) && now.0
                >= binding.heard.0 + 900_000);
            &&& silent ==> exists|j: int|
                0 <= j < r.0@.len() && (#[trigger] r.0@[j]).conn == (row->0).conn
            &&& silent ==> final(sessions).model().rows[i] is Some && (final(sessions).model().rows[i]->0).bound is Ended
            &&& 0 <= k < r.0@.len() ==> r.0@[k].reason == CloseReason::SessionExpired
        }),
{
    law_silent_sessions_are_closed(old(sessions).model().rows, now, 8, i, k);
}

/// A factory reset clears a network section that has room for it, erases where
/// nothing reads, and fails where there is no room; every session ends whatever
/// comes of it.
pub proof fn law_a_factory_reset_clears_the_network_first(
    sessions: &mut Sessions,
    network: NetworkHeld,
    r: Result<NetworkReset, ResetFailed>,
    i: int,
)
    requires
        old(sessions).model().sound(),
        call_ensures(Sessions::factory_reset, (sessions, network), r),
        0 <= i < 8,
    ensures
        r == Ok::<NetworkReset, ResetFailed>(NetworkReset::ClearAndErasePrevious) <==> network == (
        NetworkHeld::Present { clears: true }),
        r == Ok::<NetworkReset, ResetFailed>(NetworkReset::Erase) <==> network
            == NetworkHeld::Other,
        r is Err <==> network == (NetworkHeld::Present { clears: false }),
        final(sessions).model().rows[i] matches Some(row) ==> !(row.bound is Session),
        final(sessions).model().keys == old(sessions).model().keys,
{
}

/// The clients go only once the network was cleared: where it was not, nothing
/// moves and its refusal is the answer; where it was, the epoch is the one the
/// part holds then, and nobody is enrolled where the slots were freed or the
/// epoch moved.
pub proof fn law_the_clients_go_after_the_network(
    sessions: &mut Sessions,
    network: Result<(), Refused>,
    epoch: Option<Epoch>,
    clients: Result<(), ResetFailed>,
    r: Result<(), ResetFailed>,
    i: int,
)
    requires
        call_ensures(Sessions::reset_clients, (sessions, network, epoch, clients), r),
        old(sessions).model().keys.clients.len() == 8,
        0 <= i < 8,
    ensures
        network matches Err(why) ==> r == Err::<(), ResetFailed>(ResetFailed::Network(why)) && final(sessions).model() == old(sessions).model(),
        network is Ok ==> {
            &&& r == clients
            &&& final(sessions).model().keys.epoch == epoch
            &&& clients is Ok || epoch != old(sessions).model().keys.epoch ==> final(sessions).model().keys.clients[i] is None
            &&& clients is Err && epoch == old(sessions).model().keys.epoch ==> final(sessions).model().keys.clients[i] == old(sessions).model().keys.clients[i]
        },
{
}

/// A section write the client may not make is acknowledged as unauthorised, with
/// the section and the version it has.
pub proof fn law_a_write_not_allowed_is_acknowledged(
    sessions: &mut Sessions,
    ask: VersionAsk,
    version: u32,
    dst: &mut [u8],
    r: Reply,
    binding: Binding,
)
    requires
        call_ensures(Sessions::section_refused, (sessions, ask, version, dst), r),
        old(sessions).model().session(ask.of.to.conn) == Some(binding),
        binding.serial == ask.of.serial,
    ensures
        exists|said: Said|
            #[trigger] sealed_as(
                said,
                old(sessions).model(),
                ask.of.to,
                0x87,
                set_config_ack(ask.section, version, 4),
            ) && says(r, old(dst)@, final(dst)@, said),
{
    let said = old(sessions).model().section_set(
        ask.of,
        ask.section,
        Ok((version, crate::session_wire::SetConfig::Unauthorised)),
    ).1;
    assert(sealed_as(
        said,
        old(sessions).model(),
        ask.of.to,
        0x87,
        set_config_ack(ask.section, version, 4),
    ));
    assert(says(r, old(dst)@, final(dst)@, said));
}

/// A section, a list and a status that were read go out each under its own
/// message, as they were read.
pub proof fn law_what_was_read_goes_out_under_its_message(
    sessions: &mut Sessions,
    section: ReadAsk,
    radio: WifiAsk,
    body: Vec<u8>,
    dst: &mut [u8],
    r: Reply,
    other: &mut Sessions,
    room: &mut [u8],
    s: Reply,
    binding: Binding,
)
    requires
        call_ensures(
            Sessions::section_read,
            (sessions, section, Ok::<Vec<u8>, u16>(body), dst),
            r,
        ),
        old(sessions).model().session(section.of.to.conn) == Some(binding),
        binding.serial == section.of.serial,
        call_ensures(Sessions::wifi_read, (other, radio, Ok::<Vec<u8>, u16>(body), room), s),
        old(other).model().session(radio.of.to.conn) == Some(binding),
        binding.serial == radio.of.serial,
    ensures
        exists|said: Said|
            #[trigger] sealed_as(
                said,
                old(sessions).model(),
                section.of.to,
                0x86,
                Some(body@),
            ) && says(r, old(dst)@, final(dst)@, said),
        radio.asked is Scan ==> exists|said: Said|
            #[trigger] sealed_as(said, old(other).model(), radio.of.to, 0x91, Some(body@)) && says(
                s,
                old(room)@,
                final(room)@,
                said,
            ),
        radio.asked is Status ==> exists|said: Said|
            #[trigger] sealed_as(said, old(other).model(), radio.of.to, 0x92, Some(body@)) && says(
                s,
                old(room)@,
                final(room)@,
                said,
            ),
{
    let said = old(sessions).model().body_read(section.of, 0x86, Ok(body@)).1;
    assert(sealed_as(said, old(sessions).model(), section.of.to, 0x86, Some(body@)));
    assert(says(r, old(dst)@, final(dst)@, said));
    let kind: u8 = if radio.asked is Scan {
        0x91
    } else {
        0x92
    };
    let told = old(other).model().body_read(radio.of, kind, Ok(body@)).1;
    assert(sealed_as(told, old(other).model(), radio.of.to, kind, Some(body@)));
    assert(says(s, old(room)@, final(room)@, told));
}

/// The recorder's word on a clock write is told as it is: its outcome and the
/// clock, or error 7 where it was busy.
pub proof fn law_the_recorders_word_is_told_as_it_is(
    answer: TimeAnswer,
    outcome: TimeOutcome,
    at: Option<u64>,
)
    ensures
        answer == (TimeAnswer::Ack { outcome, at }) <==> answer.words() == Some((outcome, at)),
        answer == TimeAnswer::Busy <==> answer.words() is None,
{
}

/// What the controller reports of its tables is the room they have.
pub proof fn law_the_tables_report_their_room(rev: u32, digest: [u8; 8], r: Reported)
    requires
        call_ensures(reported, (rev, digest), r),
    ensures
        r.rev == rev && r.digest == digest,
        r.buses == 8 && r.devices == 24 && r.components == 48 && r.signals == 64,
        r.concerns == 48 && r.selectors == 12 && r.topology_depth == 4,
        r.series_elements == 0 && r.params == 0 && r.history_signals == 0,
{
}

/// A request for readings takes twelve selectors, in the order they were added,
/// and refuses more with nothing dropped.
pub proof fn law_a_request_takes_twelve_selectors(request: &mut ReadSignals, sel: Sel, r: bool)
    requires
        call_ensures(ReadSignals::select, (request, sel), r),
    ensures
        r <==> old(request).sel@.len() < 12,
        r ==> final(request).sel@ == old(request).sel@.push(sel),
        !r ==> final(request).sel@ == old(request).sel@,
        final(request).rev == old(request).rev && final(request).from == old(request).from,
{
}

} // verus!
