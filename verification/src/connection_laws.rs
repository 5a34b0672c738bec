//! How the rows of connections are kept: who has one, whose time is up, and
//! whose job is next.

use vstd::prelude::*;

use crate::idents::{ClientId, Conn};
use crate::session_model::{
    allocated_in, bound_in, expired_in, lemma_a_changed_row_is_found,
    lemma_a_row_carries_its_handle, lemma_a_row_changed_twice, lemma_a_row_put_back, lemma_seat,
    next_from, SessionsModel,
};
use crate::session_state::{
    Bound, Challenge, ClientDisconnected, CloseReason, JobModel, RowModel, WorkModel,
};
use crate::tick::Tick;

verus! {

broadcast use {
    lemma_a_changed_row_is_found,
    lemma_a_row_changed_twice,
    lemma_a_row_put_back,
    lemma_a_row_carries_its_handle,
};

/// A row is found by its handle exactly where one has it.
pub proof fn law_a_row_is_found_by_its_handle(m: SessionsModel, conn: Conn, i: int)
    requires
        m.sound(),
    ensures
        m.row(conn) is None <==> forall|k: int|
            0 <= k < 8 && (#[trigger] m.rows[k]) is Some ==> (m.rows[k]->0).conn != conn,
        0 <= i < 8 && m.rows[i] is Some && (m.rows[i]->0).conn == conn ==> m.row(conn) == m.rows[i],
{
    lemma_seat(m.rows, conn, 0);
    let at = m.seat(conn) as int;
    if at < m.rows.len() {
        assert(m.rows[at] is Some);
        if 0 <= i < 8 && m.rows[i] is Some && (m.rows[i]->0).conn == conn {
            if i < at {
                assert(m.rows[i] is Some && m.rows[at] is Some);
            } else if at < i {
                assert(m.rows[at] is Some && m.rows[i] is Some);
            }
        }
    }
}

/// A transport that has gone frees its row, and no other row changes; one
/// nobody announced is told so, and nothing changes.
pub proof fn law_a_transport_that_has_gone_frees_its_row(m: SessionsModel, conn: Conn, i: int)
    requires
        m.sound(),
        0 <= i < 8,
    ensures
        m.row(conn) is None ==> m.released(conn) == (m, ClientDisconnected::UnknownHandle),
        m.row(conn) is Some ==> {
            let (after, said) = m.released(conn);
            &&& said == ClientDisconnected::Released
            &&& m.rows[i] is Some && (m.rows[i]->0).conn == conn ==> after.rows[i] is None
            &&& m.rows[i] is None || (m.rows[i]->0).conn != conn ==> after.rows[i] == m.rows[i]
            &&& after.keys == m.keys
            &&& after.time == m.time
        },
{
    lemma_seat(m.rows, conn, 0);
    law_a_row_is_found_by_its_handle(m, conn, i);
    let at = m.seat(conn) as int;
    if m.row(conn) is Some {
        assert(m.rows[at] is Some);
        if m.rows[i] is Some && (m.rows[i]->0).conn == conn && i != at {
            if i < at {
                assert(m.rows[i] is Some && m.rows[at] is Some);
            } else {
                assert(m.rows[at] is Some && m.rows[i] is Some);
            }
        }
    }
}

/// Time ends a session that was silent for a quarter of an hour and forgets a
/// clock write that waited a minute; the row itself stays with its transport.
pub proof fn law_time_ends_what_was_silent(m: SessionsModel, now: Tick, i: int)
    requires
        0 <= i < m.rows.len(),
    ensures
        ({
            let after = m.ticked(now);
            &&& after.rows.len() == m.rows.len()
            &&& after.rows[i] is Some <==> m.rows[i] is Some
            &&& m.rows[i] matches Some(row) ==> {
                let kept = after.rows[i]->0;
                &&& kept.conn == row.conn
                &&& kept.failures == row.failures
                &&& row.bound matches Bound::Session(binding) ==> (kept.bound is Ended <==> now.0
                    >= binding.heard.0 + 900_000)
                &&& !(row.bound is Session) ==> kept.bound == row.bound
                &&& kept.bound is Ended || kept.bound == row.bound
            }
            &&& m.time is None ==> after.time is None
            &&& m.time matches Some(asked) ==> {
                &&& asked.asked.0 <= now.0 < asked.asked.0 + 60_000 ==> after.time == m.time
                &&& now.0 >= asked.asked.0 + 60_000 ==> after.time is None
            }
            &&& after.keys == m.keys
        }),
{
}

/// The connections closed for silence are those of the sessions that were
/// silent for a quarter of an hour, each of them, and no others.
pub proof fn law_silent_sessions_are_closed(
    rows: Seq<Option<RowModel>>,
    now: Tick,
    n: nat,
    i: int,
    k: int,
)
    requires
        n <= rows.len(),
    ensures
        0 <= i < n && rows[i] is Some && ((rows[i]->0).bound matches Bound::Session(binding)
            && now.0 >= binding.heard.0 + 900_000) ==> exists|j: int|
            0 <= j < expired_in(rows, now, n).len() && (#[trigger] expired_in(
                rows,
                now,
                n,
            )[j]).conn == (rows[i]->0).conn,
        0 <= k < expired_in(rows, now, n).len() ==> {
            &&& expired_in(rows, now, n)[k].reason == CloseReason::SessionExpired
            &&& exists|j: int|
                0 <= j < n && (#[trigger] rows[j]) is Some && (rows[j]->0).conn == expired_in(
                    rows,
                    now,
                    n,
                )[k].conn && (rows[j]->0).bound is Session && now.0 >= (
                rows[j]->0).bound->Session_0.heard.0 + 900_000
        },
    decreases n,
{
    if n > 0 {
        let m = (n - 1) as nat;
        let before = expired_in(rows, now, m);
        let after = expired_in(rows, now, n);
        law_silent_sessions_are_closed(rows, now, m, i, k);
        if 0 <= i < n && rows[i] is Some && ((rows[i]->0).bound matches Bound::Session(binding)
            && now.0 >= binding.heard.0 + 900_000) {
            if i < m {
                let j = choose|j: int|
                    0 <= j < before.len() && (#[trigger] before[j]).conn == (rows[i]->0).conn;
                assert(after[j] == before[j]);
            } else {
                assert(after[before.len() as int].conn == (rows[i]->0).conn);
            }
        }
        if 0 <= k < after.len() {
            if k < before.len() {
                assert(after[k] == before[k]);
            } else {
                assert(rows[n - 1] is Some);
            }
        }
    }
}

/// The next job is one that waits, on the first such row round from the one
/// served last; with a worker free there is none only where no job waits.
pub proof fn law_the_next_job_is_one_that_waits(m: SessionsModel, j: int)
    requires
        m.sound(),
        m.computing is None,
        0 <= j < 8,
    ensures
        m.next() matches Some(i) ==> 0 <= i < 8 && (m.rows[i] matches Some(row) && row.work
            is Queued),
        m.rows[j] is Some && (m.rows[j]->0).work is Queued ==> m.next() is Some,
{
    lemma_next(m, m.served + 1, 0, j);
}

/// Looking round finds what waits.
proof fn lemma_next(m: SessionsModel, start: int, step: nat, j: int)
    requires
        m.rows.len() == 8,
        0 <= start <= 8,
        step <= 8,
        0 <= j < 8,
    ensures
        next_from(m.rows, start, step) matches Some(i) ==> 0 <= i < 8 && (m.rows[i] matches Some(
            row,
        ) && row.work is Queued),
        m.rows[j] is Some && (m.rows[j]->0).work is Queued && (exists|s: int|
            step <= s < 8 && #[trigger] ((start + s) % 8) == j) ==> next_from(m.rows, start, step)
            is Some,
        step == 0 ==> exists|s: int| step <= s < 8 && #[trigger] ((start + s) % 8) == j,
    decreases 8 - step,
{
    if step < 8 {
        lemma_next(m, start, step + 1, j);
        let i = (start + step) % 8;
    }
    if step == 0 {
        let s = (j + 16 - start) % 8;
        assert((start + s) % 8 == j);
    }
}

/// Handing a job out marks its row as computing and changes no other.
pub proof fn law_a_job_handed_out_is_computing(m: SessionsModel, i: int, k: int)
    requires
        m.sound(),
        m.next() == Some(i),
        0 <= k < 8,
    ensures
        ({
            let after = m.handed_out(i);
            &&& after.rows[i] matches Some(row) && row.work is Computing && row.pairing == (
            m.rows[i]->0).pairing && row.attempt == (m.rows[i]->0).attempt && row.bound == (
            m.rows[i]->0).bound
            &&& k != i ==> after.rows[k] == m.rows[k]
            &&& after.served == i
            &&& after.computing == Some((m.rows[i]->0).work->Queued_0.ticket)
        }),
{
    law_the_next_job_is_one_that_waits(m, 0);
}

/// A job that could not be handed over waits on its row again, unless its row
/// has moved on.
pub proof fn law_a_job_not_handed_over_waits_again(m: SessionsModel, job: JobModel, row: RowModel)
    requires
        m.row(job.ticket.conn) == Some(row),
        m.computing == Some(job.ticket),
    ensures
        m.unsent(job).computing is None,
        row.attempt == job.ticket.attempt && row.work is Computing ==> (m.unsent(job).row(
            job.ticket.conn,
        ) matches Some(kept) && kept.work == WorkModel::Queued(job) && kept.pairing == row.pairing
            && kept.bound == row.bound),
        row.attempt != job.ticket.attempt || !(row.work is Computing) ==> m.unsent(job).rows
            == m.rows,
{
    let back = m.back(job.ticket);
    assert(back.rows == m.rows);
    assert(back.row(job.ticket.conn) == m.row(job.ticket.conn));
}

/// Ending a client's sessions ends every one of them, on whatever row, and no
/// other client's.
pub proof fn law_a_clients_sessions_end(m: SessionsModel, client: ClientId, i: int)
    requires
        0 <= i < m.rows.len(),
    ensures
        ({
            let after = m.unbound(client);
            &&& after.rows.len() == m.rows.len()
            &&& m.rows[i] is None ==> after.rows[i] is None
            &&& m.rows[i] matches Some(row) ==> (after.rows[i] matches Some(kept) && {
                let theirs = row.bound is Session && row.bound->Session_0.client == client;
                &&& theirs ==> kept.bound is Ended
                &&& !theirs ==> kept == row
                &&& kept.conn == row.conn
                &&& kept.challenge == row.challenge
                &&& kept.pairing == row.pairing
                &&& kept.work == row.work
            })
        }),
{
}

/// A handle that owes a challenge is given the one drawn, minted now, where the
/// unit can let anybody in; any other is left as it is.
pub proof fn law_a_challenge_owed_is_given(
    m: SessionsModel,
    conn: Conn,
    drawn: [u8; 16],
    now: Tick,
    row: RowModel,
)
    requires
        m.row(conn) == Some(row),
    ensures
        ({
            let after = m.settled(conn, drawn, now);
            let can = m.keys.secret is Some && m.keys.epoch is Some && m.keys.controller;
            &&& can && row.challenge == Challenge::Owed ==> (after.row(conn) matches Some(kept)
                && kept.challenge == (Challenge::Live { bytes: drawn, minted: now }) && kept.bound
                == row.bound && kept.pairing == row.pairing)
            &&& !can || row.challenge != Challenge::Owed ==> after == m
        }),
{
}

/// The handles that owe a challenge are each listed, where the unit can let
/// anybody in, and no other is.
pub proof fn law_the_handles_that_owe_are_listed(m: SessionsModel, n: nat, i: int, k: int)
    requires
        n <= m.rows.len(),
        m.keys.secret is Some && m.keys.epoch is Some && m.keys.controller,
    ensures
        0 <= i < n && m.rows[i] is Some && (m.rows[i]->0).challenge == Challenge::Owed
            ==> m.owing_in(n).contains((m.rows[i]->0).conn),
        0 <= k < m.owing_in(n).len() ==> exists|j: int|
            0 <= j < n && (#[trigger] m.rows[j]) is Some && (m.rows[j]->0).challenge
                == Challenge::Owed && (m.rows[j]->0).conn == m.owing_in(n)[k],
    decreases n,
{
    if n > 0 {
        let p = (n - 1) as nat;
        let before = m.owing_in(p);
        let after = m.owing_in(n);
        law_the_handles_that_owe_are_listed(m, p, i, k);
        if 0 <= i < n && m.rows[i] is Some && (m.rows[i]->0).challenge == Challenge::Owed {
            if i < p {
                let j = choose|j: int| 0 <= j < before.len() && before[j] == (m.rows[i]->0).conn;
                assert(after[j] == before[j]);
            } else {
                assert(after[before.len() as int] == (m.rows[i]->0).conn);
            }
        }
        if 0 <= k < after.len() {
            if k < before.len() {
                assert(after[k] == before[k]);
            } else {
                assert(m.rows[n - 1] is Some);
            }
        }
    }
}

/// The rows allocated and the sessions bound are counted one by one.
pub proof fn law_rows_and_sessions_are_counted(rows: Seq<Option<RowModel>>, n: nat)
    requires
        n <= rows.len(),
    ensures
        allocated_in(rows, n) == rows.take(n as int).filter(
            |row: Option<RowModel>| row is Some,
        ).len(),
        bound_in(rows, n) == rows.take(n as int).filter(
            |row: Option<RowModel>| row is Some && (row->0).bound is Session,
        ).len(),
    decreases n,
{
    reveal(Seq::filter);
    if n > 0 {
        law_rows_and_sessions_are_counted(rows, (n - 1) as nat);
        assert(rows.take(n as int).drop_last() =~= rows.take(n - 1));
        assert(rows.take(n as int).last() == rows[n - 1]);
    }
}

/// The failures that count are those of the last minute, in order, and one more
/// is added while fewer than eight are; the eighth ends the session.
pub proof fn law_failures_of_the_last_minute_count(row: RowModel, now: Tick)
    ensures
        crate::session_state::remembered(row.failures, now, row.failures.len())
            == row.failures.filter(|at: Tick| now.0 < at.0 + 60_000),
        row.sheds(now) <==> row.failures.filter(|at: Tick| now.0 < at.0 + 60_000).len() >= 7,
{
    lemma_failures(row.failures, now, row.failures.len());
    assert(row.failures.take(row.failures.len() as int) =~= row.failures);
}

/// The failures of the last minute among the first.
proof fn lemma_failures(failures: Seq<Tick>, now: Tick, n: nat)
    requires
        n <= failures.len(),
    ensures
        crate::session_state::remembered(failures, now, n) == failures.take(n as int).filter(
            |at: Tick| now.0 < at.0 + 60_000,
        ),
    decreases n,
{
    reveal(Seq::filter);
    if n > 0 {
        lemma_failures(failures, now, (n - 1) as nat);
        assert(failures.take(n as int).drop_last() =~= failures.take(n - 1));
        assert(failures.take(n as int).last() == failures[n - 1]);
    }
}

} // verus!
