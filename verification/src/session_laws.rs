//! What holds of the sessions whatever arrives.

use vstd::prelude::*;

use crate::idents::{Conn, Generation};
use crate::session_ask::{silence, AskModel, Next, StoreModel};
use crate::session_model::{
    free_from, lemma_a_changed_row_is_found, lemma_a_row_carries_its_handle,
    lemma_a_row_changed_twice, lemma_a_row_put_back, lemma_free, lemma_seat, next_from, seat_from,
    waits, SessionsModel,
};
use crate::session_state::{
    live_of, remembered, spec_outlived, Addressed, Binding, Bound, Challenge, ClientConnected,
    Close, CloseReason, Done, Facts, OfferModel, RowModel, SessionNote, CHALLENGE_LIFE,
    CONNECTIONS, FAILURES, SESSION_IDLE,
};
use crate::session_steps::bare_said;
use crate::session_wire::{enrol_answer, Fault, Outcome, TimeOutcome};
use crate::tick::Tick;

verus! {

broadcast use {
    lemma_a_changed_row_is_found,
    lemma_a_row_changed_twice,
    lemma_a_row_put_back,
    lemma_a_row_carries_its_handle,
};

/// An announcement evicts nobody: every allocated row stays as it is, and when
/// all of them are allocated a new handle is refused and nothing changes.
pub proof fn law_an_announcement_evicts_nobody(m: SessionsModel, conn: Conn)
    requires
        m.sound(),
    ensures
        forall|i: int|
            0 <= i < CONNECTIONS && (#[trigger] m.rows[i]) is Some ==> m.announced(conn).0.rows[i]
                == m.rows[i],
        m.row(conn) is Some ==> m.announced(conn) == (m, ClientConnected::RefusedHandleInUse),
        m.row(conn) is None && (forall|i: int| 0 <= i < CONNECTIONS ==> (#[trigger] m.rows[i]) is Some)
            ==> m.announced(conn) == (m, ClientConnected::RefusedTableFull),
        m.row(conn) is None && (exists|i: int|
            0 <= i < CONNECTIONS && (#[trigger] m.rows[i]) is None) ==> m.announced(conn).1
            == ClientConnected::Accepted,
{
    lemma_free(m.rows, 0);
}

/// A row that was given is found under its handle, owes a challenge, and has
/// no session and no handshake.
pub proof fn law_an_accepted_row_is_fresh(m: SessionsModel, conn: Conn)
    requires
        m.sound(),
        m.announced(conn).1 == ClientConnected::Accepted,
    ensures
        m.announced(conn).0.row(conn) == Some(RowModel::fresh(conn)),
{
    let after = m.announced(conn).0;
    let at = free_from(m.rows, 0);
    lemma_free(m.rows, 0);
    lemma_seat(m.rows, conn, 0);
    lemma_seat(after.rows, conn, 0);
    let found = seat_from(after.rows, conn, 0);
    if found < at {
        assert(after.rows[found as int] == m.rows[found as int]);
    }
    assert(after.rows[at as int] == Some(RowModel::fresh(conn)));
}

/// A challenge is single use: once it is presented, live or dead, no later
/// presentation on the row finds one until another is minted.
pub proof fn law_a_challenge_is_used_once(
    m: SessionsModel,
    first: Addressed,
    then: Tick,
    second: Addressed,
    now: Tick,
)
    requires
        first.conn == second.conn,
    ensures
        m.presents(first, then).0.presents(second, now).1 is None,
{
}

/// A challenge is dead 120 seconds after it was minted.
pub proof fn law_a_challenge_dies(bytes: [u8; 16], minted: Tick, now: Tick)
    requires
        now.0 >= minted.0 + CHALLENGE_LIFE,
    ensures
        live_of(Challenge::Live { bytes, minted }, now) is None,
{
}

/// A `Discover` never hands out a dead challenge: it answers with the row's
/// live one, or asks for another.
pub proof fn law_a_dead_challenge_is_not_given(
    m: SessionsModel,
    to: Addressed,
    now: Tick,
    facts: Facts<'_>,
)
    requires
        m.provisioned(),
        m.row(to.conn) matches Some(row) && live_of(row.challenge, now) is None,
    ensures
        m.discovers(to, now, facts) == Next::Asks(AskModel::Challenge(to)),
{
}

/// The rotation finds a waiting row other than the one served last whenever
/// there is one.
proof fn lemma_rotation(m: SessionsModel, i: int, j: int, step: nat)
    requires
        m.rows.len() == CONNECTIONS,
        0 <= i < CONNECTIONS,
        0 <= j < CONNECTIONS,
        i != j,
        waits(m.rows[j]),
        step < CONNECTIONS,
        forall|s: int|
            0 <= s < step ==> !waits(m.rows[(#[trigger] (i + 1 + s)) % CONNECTIONS as int]),
    ensures
        next_from(m.rows, i + 1, step) matches Some(k) && k != i && waits(m.rows[k]),
    decreases CONNECTIONS - step,
{
    let k = (i + 1 + step) % CONNECTIONS as int;
    if waits(m.rows[k]) {
        if k == i {
            assert(step == CONNECTIONS - 1);
            let s = if j > i {
                j - i - 1
            } else {
                j - i - 1 + CONNECTIONS
            };
            assert(0 <= s < step);
            assert((i + 1 + s) % CONNECTIONS as int == j);
            assert(false);
        }
    } else {
        if step + 1 == CONNECTIONS {
            let s = if j > i {
                j - i - 1
            } else {
                j - i - 1 + CONNECTIONS
            };
            assert((i + 1 + s) % CONNECTIONS as int == j);
            if s < step {
                assert(!waits(m.rows[(i + 1 + s) % CONNECTIONS as int]));
            }
            assert(false);
        }
        assert forall|s: int| 0 <= s < step + 1 implies !waits(
            m.rows[(#[trigger] (i + 1 + s)) % CONNECTIONS as int],
        ) by {}
        lemma_rotation(m, i, j, step + 1);
    }
}

/// Connections take turns: while another row's job waits, the row served last
/// is not served again.
pub proof fn law_connections_take_turns(m: SessionsModel, j: int)
    requires
        m.sound(),
        m.computing is None,
        0 <= j < CONNECTIONS,
        j != m.served,
        waits(m.rows[j]),
    ensures
        m.next() matches Some(k) && k != m.served && waits(m.rows[k]),
{
    lemma_rotation(m, m.served, j, 0);
}

/// One job is out at a time: none is handed out while one is, and handing one
/// out makes it the one that is.
pub proof fn law_one_job_is_out_at_a_time(m: SessionsModel)
    ensures
        m.computing is Some ==> m.next() is None,
        m.next() matches Some(i) ==> m.handed_out(i).computing is Some && m.handed_out(i).next()
            is None,
{
}

/// A result for a handshake that was abandoned since is discarded: nothing is
/// answered, and no row changes.
pub proof fn law_an_abandoned_result_is_discarded(
    m: SessionsModel,
    conn: Conn,
    done: Done,
    now: Tick,
)
    requires
        m.row(conn) matches Some(row) && done.ticket == row.ticket(done.ticket.req_id),
    ensures
        m.abandoned(conn).completed(done, now).1 == Next::Said(silence(Some(SessionNote::Stale))),
        m.abandoned(conn).completed(done, now).0.rows == m.abandoned(conn).rows,
{
    let row = m.row(conn)->0;
    assert(row.abandoned().attempt != row.attempt);
    let back = m.abandoned(conn).back(done.ticket);
    assert(back.rows == m.abandoned(conn).rows);
    assert(back.row(conn) == m.abandoned(conn).row(conn));
}

/// A result for a row that has gone, or been given to another transport since,
/// is discarded too.
pub proof fn law_a_result_for_no_row_is_discarded(m: SessionsModel, done: Done, now: Tick)
    requires
        m.row(done.ticket.conn) matches Some(row) ==> !(row.work is Computing),
    ensures
        m.completed(done, now).1 == Next::Said(silence(Some(SessionNote::Stale))),
        m.completed(done, now).0 == m.back(done.ticket),
{
    let back = m.back(done.ticket);
    assert(back.rows == m.rows);
    assert(back.row(done.ticket.conn) == m.row(done.ticket.conn));
}

/// A request its window dropped is neither answered nor counted, and does not
/// refresh the session.
pub proof fn law_a_dropped_request_changes_nothing(
    m: SessionsModel,
    to: Addressed,
    kind: u8,
    counts: bool,
    now: Tick,
    facts: Facts<'_>,
)
    requires
        m.session(to.conn) is Some,
    ensures
        m.opens(to, kind, Err(Fault { code: None, counts }), now, facts) == (
            m,
            Next::Said(silence(Some(SessionNote::Dropped))),
        ),
{
}

/// A request that its session already took is dropped, unanswered and
/// uncounted, when it comes again.
pub proof fn law_a_request_taken_is_dropped_again(
    m: SessionsModel,
    to: Addressed,
    binding: Binding,
    kind: u8,
    frame: Seq<u8>,
    now: Tick,
    facts: Facts<'_>,
)
    requires
        m.session(to.conn) == Some(binding),
        m.shut(to.conn, binding.serial, frame),
    ensures
        m.seals(to, kind, frame, now, facts).1 == Next::Said(
            silence(Some(SessionNote::Dropped)),
        ),
{
}

/// A request that did not open does not refresh the session: it is as it was,
/// or it has ended.
pub proof fn law_only_an_opened_request_refreshes(
    m: SessionsModel,
    to: Addressed,
    kind: u8,
    why: Fault,
    now: Tick,
    facts: Facts<'_>,
)
    requires
        m.session(to.conn) is Some,
    ensures
        m.opens(to, kind, Err(why), now, facts).0.session(to.conn) is Some ==> m.opens(
            to,
            kind,
            Err(why),
            now,
            facts,
        ).0.session(to.conn) == m.session(to.conn),
{
}

/// The failure that reaches the threshold ends the session, abandons the
/// handshake and closes the connection; no other one does.
pub proof fn law_the_threshold_sheds(
    m: SessionsModel,
    to: Addressed,
    code: u16,
    row: RowModel,
    now: Tick,
)
    requires
        m.row(to.conn) == Some(row),
    ensures
        ({
            let (after, said) = m.refused(to, code, true, now);
            let inside = remembered(row.failures, now, row.failures.len()).len();
            &&& after.row(to.conn) matches Some(kept)
            &&& if inside + 1 >= FAILURES {
                &&& said.close == Some(
                    Close { conn: to.conn, reason: CloseReason::AuthenticationFailures },
                )
                &&& kept.bound is Ended
                &&& kept.pairing is Nothing
                &&& kept.work is Idle
            } else {
                &&& said.close is None
                &&& kept.bound == row.bound
                &&& kept.failures.len() == inside + 1
            }
        }),
{
}

/// A session whose last proven frame is fifteen minutes old has ended after a
/// tick; one heard since has not.
pub proof fn law_an_idle_session_ends(row: RowModel, now: Tick)
    ensures
        row.bound matches Bound::Session(binding) ==> {
            &&& now.0 >= binding.heard.0 + SESSION_IDLE ==> row.ticked(now).bound is Ended
            &&& now.0 < binding.heard.0 + SESSION_IDLE ==> row.ticked(now).bound == row.bound
        },
        !(row.bound is Session) ==> row.ticked(now).bound == row.bound,
        row.ticked(now).conn == row.conn,
        row.ticked(now).challenge == row.challenge,
{
}

/// A pairing handshake is gone 120 seconds after its first message, and a row
/// without one is not disturbed.
pub proof fn law_an_old_handshake_is_abandoned(row: RowModel, now: Tick)
    ensures
        row.pairing.since() matches Some(since) ==> if spec_outlived(since, now) {
            row.ticked(now).pairing is Nothing && row.ticked(now).work is Idle && row.ticked(
                now,
            ).attempt != row.attempt
        } else {
            row.ticked(now).pairing == row.pairing && row.ticked(now).work == row.work
        },
        row.pairing is Nothing ==> row.ticked(now).work == row.work && row.ticked(now).attempt
            == row.attempt,
{
}

/// The recorder's answer goes to the session that asked and to no other: a
/// ticket that is not the one waiting changes nothing, and a session bound
/// since is told nothing.
pub proof fn law_time_is_answered_to_who_asked(
    m: SessionsModel,
    ticket: u32,
    answer: Option<(TimeOutcome, Option<u64>)>,
)
    ensures
        !(m.time matches Some(asked) && asked.ticket == ticket) ==> m.time_answered(ticket, answer)
            == (m, silence(None)),
        m.time matches Some(asked) && asked.ticket == ticket && !(m.session(asked.to.conn) matches Some(
            binding,
        ) && binding.serial == asked.serial) ==> m.time_answered(ticket, answer) == (
            (SessionsModel { time: None, ..m }),
            silence(None),
        ),
{
    let after = SessionsModel { time: None, ..m };
    if let Some(asked) = m.time {
        assert(after.rows == m.rows);
        assert(after.row(asked.to.conn) == m.row(asked.to.conn));
    }
}

/// A slot is named to its client only once it is on the part: where the write
/// did not land nobody is enrolled, and the client is told so.
pub proof fn law_a_slot_is_named_once_it_landed(
    m: SessionsModel,
    ask: StoreModel,
    generation: Generation,
)
    requires
        m.keys.clients.len() == crate::clients::SLOTS,
        1 <= ask.id@ <= crate::clients::SLOTS,
    ensures
        m.enrol_stores(ask, None).0 == m,
        m.enrol_stores(ask, None).1.image == enrol_answer(
            ask.enrolling,
            Outcome::NotStored.words(),
            ask.next_challenge@,
        ),
        m.enrol_stores(ask, Some(generation)).0.keys.clients[ask.id@ - 1] matches Some(held)
            && held.client == ask.client && held.generation == generation && held.tag_key
            == ask.tag_key@,
        forall|i: int|
            0 <= i < crate::clients::SLOTS && i != ask.id@ - 1 ==> (
            #[trigger] m.enrol_stores(ask, Some(generation)).0.keys.clients[i])
                == m.keys.clients[i],
{
}

/// Every session of a slot has ended before the slot is asked to be rewritten.
pub proof fn law_a_slots_sessions_end_before_it_is_rewritten(
    m: SessionsModel,
    to: Addressed,
    enrolling: km43::Enrolling,
    tag_key: [u8; 32],
    offer: OfferModel,
    drawn: Option<[u8; 16]>,
    now: Tick,
    facts: Facts<'_>,
    i: int,
)
    requires
        0 <= i < m.rows.len(),
    ensures
        m.enrol_draws(to, enrolling, tag_key, offer, drawn, now, facts).1 matches Next::Asks(
            AskModel::Store(ask),
        ) ==> {
            let after = m.enrol_draws(to, enrolling, tag_key, offer, drawn, now, facts).0;
            !(after.rows[i] matches Some(row) && row.bound matches Bound::Session(binding)
                && binding.client == ask.id)
        },
{
    if let Some(bytes) = drawn {
        lemma_seat(m.rows, to.conn, 0);
        assert(m.minted(to.conn, bytes, now).rows.len() == m.rows.len());
    }
}

/// A row that is in a handshake or whose job is taken refuses a vouch, and
/// drops neither.
pub proof fn law_a_vouch_evicts_nothing(
    m: SessionsModel,
    to: Addressed,
    payload: Seq<u8>,
    row: RowModel,
    read: Result<(), u16>,
)
    requires
        m.row(to.conn) == Some(row),
        row.bound is Session,
        !(row.pairing is Nothing) || !(row.work is Idle),
    ensures
        m.vouches(to, row.bound->Session_0, payload, read).0.row(to.conn) matches Some(kept)
            && kept.pairing == row.pairing && kept.work == row.work && kept.attempt == row.attempt,
{
}

/// A factory reset ends every session and abandons every handshake, and leaves
/// each row to its transport.
pub proof fn law_a_factory_reset_ends_everything(m: SessionsModel, i: int)
    requires
        0 <= i < m.rows.len(),
    ensures
        m.reset().rows[i] is Some <==> m.rows[i] is Some,
        m.rows[i] matches Some(row) ==> (m.reset().rows[i] matches Some(kept) && kept.conn
            == row.conn && !(kept.bound is Session) && kept.pairing is Nothing && kept.work is Idle
            && kept.attempt != row.attempt),
{
}

/// A goodbye whose body read ends the session and leaves the row, its
/// challenge and its handshake to the transport; one whose body did not leaves
/// the session bound.
pub proof fn law_a_goodbye_leaves_the_row(
    m: SessionsModel,
    to: Addressed,
    row: RowModel,
    read: Result<(), u16>,
)
    requires
        m.row(to.conn) == Some(row),
        row.bound is Session,
    ensures
        m.goodbye(to, read).0.row(to.conn) matches Some(kept) && kept.challenge == row.challenge
            && kept.pairing == row.pairing && kept.work == row.work && (kept.bound is Ended <==> read
            is Ok),
{
}

/// A request on a row that never had a session is told to open one, and one on
/// a row whose session ended is told so; nothing is opened or counted.
pub proof fn law_no_session_no_service(
    m: SessionsModel,
    to: Addressed,
    kind: u8,
    frame: Seq<u8>,
    now: Tick,
    facts: Facts<'_>,
    row: RowModel,
)
    requires
        m.row(to.conn) == Some(row),
        !(row.bound is Session),
    ensures
        m.seals(to, kind, frame, now, facts) == (
            m,
            Next::Said(
                bare_said(
                    to,
                    if row.bound is Never {
                        4
                    } else {
                        9
                    },
                ),
            ),
        ),
{
}

/// A session bound by a result belongs to the slot that proved, and only while
/// the slot still holds the enrolment the proof was made for.
pub proof fn law_a_rekeyed_slot_binds_nobody(m: SessionsModel, done: Done, now: Tick)
    requires
        done.result matches crate::session_state::Computed::Bound { client_id, generation, .. }
            && !(m.keys.epoch is Some && (crate::clients::occupant_of(m.keys.clients, client_id)
            matches Some(held) && held.generation == generation)),
    ensures
        m.completed(done, now).0.session(done.ticket.conn) == m.session(done.ticket.conn),
{
    let back = m.back(done.ticket);
    assert(back.rows == m.rows);
    assert(back.row(done.ticket.conn) == m.row(done.ticket.conn));
}

} // verus!
