//! The rows of the sessions in the mathematical sense, and what each event
//! makes of them.

use vstd::prelude::*;

use crate::idents::{ClientId, Conn};
use crate::session_state::{
    spec_time_expired, AskedTime, Binding, Bound, Challenge, ClientConnected, ClientDisconnected,
    Close, CloseReason, JobModel, KeysModel, Row, RowModel, Ticket, WorkModel, CONNECTIONS,
};
use crate::session_wire::{dropped, opening};
use crate::tick::Tick;

verus! {

/// The rows and what is kept beside them, in the mathematical sense.
#[verifier::ext_equal]
pub struct SessionsModel {
    /// The rows.
    pub rows: Seq<Option<RowModel>>,
    /// What the controller keeps.
    pub keys: KeysModel,
    /// The last binding's serial.
    pub bindings: u32,
    /// The one client `Time` in the recorder's hands; a second waits its turn.
    pub time: Option<AskedTime>,
    /// The last ticket handed to the recorder.
    pub tickets: u32,
    /// The job out at the worker, if one is: at most one at a time.
    pub computing: Option<Ticket>,
    /// The row the last job came from; the next is looked for after it.
    pub served: int,
}

/// What a row that may be free holds.
pub open spec fn row_model(row: Option<Row>) -> Option<RowModel> {
    match row {
        Some(row) => Some(row@),
        None => None,
    }
}

/// What the rows hold.
pub open spec fn rows_of(rows: Seq<Option<Row>>) -> Seq<Option<RowModel>> {
    rows.map_values(|row: Option<Row>| row_model(row))
}

/// The first row at or after `i` with this handle, or how many rows there are.
pub open spec fn seat_from(rows: Seq<Option<RowModel>>, conn: Conn, i: nat) -> nat
    decreases rows.len() - i,
{
    if i >= rows.len() {
        rows.len()
    } else if rows[i as int] matches Some(row) && row.conn == conn {
        i
    } else {
        seat_from(rows, conn, i + 1)
    }
}

/// The first free row at or after `i`, or how many rows there are.
pub open spec fn free_from(rows: Seq<Option<RowModel>>, i: nat) -> nat
    decreases rows.len() - i,
{
    if i >= rows.len() {
        rows.len()
    } else if rows[i as int] is None {
        i
    } else {
        free_from(rows, i + 1)
    }
}

/// How many of the first `n` rows are allocated.
pub open spec fn allocated_in(rows: Seq<Option<RowModel>>, n: nat) -> nat
    decreases n,
{
    if n == 0 {
        0
    } else {
        allocated_in(rows, (n - 1) as nat) + if rows[n - 1] is Some {
            1nat
        } else {
            0
        }
    }
}

/// Whether a session is bound on a row.
pub open spec fn bound_row(row: Option<RowModel>) -> bool {
    row matches Some(row) && row.bound is Session
}

/// How many of the first `n` rows have a session.
pub open spec fn bound_in(rows: Seq<Option<RowModel>>, n: nat) -> nat
    decreases n,
{
    if n == 0 {
        0
    } else {
        bound_in(rows, (n - 1) as nat) + if bound_row(rows[n - 1]) {
            1nat
        } else {
            0
        }
    }
}

/// Whether a job waits on a row.
pub open spec fn waits(row: Option<RowModel>) -> bool {
    row matches Some(row) && row.work is Queued
}

/// The first row a job waits on, looked for from `start` on and round to it
/// again, `step` rows on.
pub open spec fn next_from(rows: Seq<Option<RowModel>>, start: int, step: nat) -> Option<int>
    decreases rows.len() - step,
{
    if step >= rows.len() {
        None
    } else {
        let i = (start + step) % rows.len() as int;
        if waits(rows[i]) {
            Some(i)
        } else {
            next_from(rows, start, step + 1)
        }
    }
}

/// The connections of the first `n` rows whose session has been silent too
/// long, to be closed.
pub open spec fn expired_in(rows: Seq<Option<RowModel>>, now: Tick, n: nat) -> Seq<Close>
    decreases n,
{
    if n == 0 {
        Seq::empty()
    } else {
        let before = expired_in(rows, now, (n - 1) as nat);
        match rows[n - 1] {
            Some(row) if row.idle(now) => before.push(
                Close { conn: row.conn, reason: CloseReason::SessionExpired },
            ),
            _ => before,
        }
    }
}

impl SessionsModel {
    /// As many rows as there are, each handle on one of them at most, no more
    /// failures on one than the threshold asks for, and the last row served is
    /// one of them.
    pub open spec fn sound(self) -> bool {
        &&& self.rows.len() == CONNECTIONS
        &&& 0 <= self.served < CONNECTIONS
        &&& forall|i: int, j: int|
            0 <= i < j < self.rows.len() && (#[trigger] self.rows[i]) is Some && (
            #[trigger] self.rows[j]) is Some ==> self.rows[i]->0.conn != self.rows[j]->0.conn
    }

    /// Where a handle's row is.
    pub open spec fn seat(self, conn: Conn) -> nat {
        seat_from(self.rows, conn, 0)
    }

    /// A handle's row.
    pub open spec fn row(self, conn: Conn) -> Option<RowModel> {
        if self.seat(conn) < self.rows.len() {
            self.rows[self.seat(conn) as int]
        } else {
            None
        }
    }

    /// The same, with another row for a handle that has one.
    pub open spec fn with_row(self, conn: Conn, row: RowModel) -> Self {
        if self.seat(conn) < self.rows.len() {
            SessionsModel { rows: self.rows.update(self.seat(conn) as int, Some(row)), ..self }
        } else {
            self
        }
    }

    /// The session on a handle's row.
    pub open spec fn session(self, conn: Conn) -> Option<Binding> {
        match self.row(conn) {
            Some(row) => match row.bound {
                Bound::Session(binding) => Some(binding),
                _ => None,
            },
            None => None,
        }
    }

    /// Whether a frame is dropped for its number by the session with this
    /// serial on a handle, or that session is not there.
    pub open spec fn shut(self, conn: Conn, serial: u32, frame: Seq<u8>) -> bool {
        self.session(conn) matches Some(binding) ==> (binding.serial == serial ==> opening(
            binding.channel,
            frame,
        ) == dropped())
    }

    /// Whether every frame dropped before is dropped after.
    pub open spec fn keeps_shut(self, after: Self) -> bool {
        forall|conn: Conn, serial: u32, frame: Seq<u8>|
            self.shut(conn, serial, frame) ==> #[trigger] after.shut(conn, serial, frame)
    }
}

/// A handle's row is the one its seat says, and there is none when it has no
/// seat.
pub proof fn lemma_seat(rows: Seq<Option<RowModel>>, conn: Conn, i: nat)
    requires
        i <= rows.len(),
    ensures
        i <= seat_from(rows, conn, i) <= rows.len(),
        seat_from(rows, conn, i) < rows.len() ==> rows[seat_from(rows, conn, i) as int] is Some
            && rows[seat_from(rows, conn, i) as int]->0.conn == conn,
        forall|j: int|
            i <= j < seat_from(rows, conn, i) && (#[trigger] rows[j]) is Some ==> rows[j]->0.conn
                != conn,
    decreases rows.len() - i,
{
    if i < rows.len() {
        if rows[i as int] matches Some(row) && row.conn == conn {
        } else {
            lemma_seat(rows, conn, i + 1);
        }
    }
}

/// The first free row is free, and those before it are not.
pub proof fn lemma_free(rows: Seq<Option<RowModel>>, i: nat)
    requires
        i <= rows.len(),
    ensures
        i <= free_from(rows, i) <= rows.len(),
        free_from(rows, i) < rows.len() ==> rows[free_from(rows, i) as int] is None,
        forall|j: int| i <= j < free_from(rows, i) ==> (#[trigger] rows[j]) is Some,
    decreases rows.len() - i,
{
    if i < rows.len() && rows[i as int] is Some {
        lemma_free(rows, i + 1);
    }
}

/// Changing a row in place leaves every handle where it was.
pub broadcast proof fn lemma_a_changed_row_is_sound(m: SessionsModel, conn: Conn, row: RowModel)
    requires
        m.sound(),
        row.conn == conn,
    ensures
        #[trigger] m.with_row(conn, row).sound(),
{
    lemma_seat(m.rows, conn, 0);
}

/// A changed row is the one found afterwards.
pub broadcast proof fn lemma_a_changed_row_is_found(m: SessionsModel, conn: Conn, row: RowModel)
    requires
        m.row(conn) is Some,
        row.conn == conn,
    ensures
        (#[trigger] m.with_row(conn, row)).row(conn) == Some(row),
        m.with_row(conn, row).seat(conn) == m.seat(conn),
{
    lemma_seat(m.rows, conn, 0);
    lemma_seat_kept(m.rows, conn, m.seat(conn) as int, row, 0);
}

/// A row changed in place is where it was.
proof fn lemma_seat_kept(rows: Seq<Option<RowModel>>, conn: Conn, at: int, row: RowModel, i: nat)
    requires
        0 <= at < rows.len(),
        seat_from(rows, conn, i) == at,
        i <= at,
        row.conn == conn,
    ensures
        seat_from(rows.update(at, Some(row)), conn, i) == at,
    decreases at - i,
{
    if i < at {
        lemma_seat_kept(rows, conn, at, row, i + 1);
    }
}

/// A handle is found past a changed row of another as before.
proof fn lemma_seat_past(
    rows: Seq<Option<RowModel>>,
    at: int,
    row: RowModel,
    other: Conn,
    i: nat,
)
    requires
        0 <= at < rows.len(),
        rows[at] matches Some(held) && held.conn != other,
        row.conn != other,
        i <= rows.len(),
    ensures
        seat_from(rows.update(at, Some(row)), other, i) == seat_from(rows, other, i),
    decreases rows.len() - i,
{
    if i < rows.len() {
        lemma_seat_past(rows, at, row, other, i + 1);
    }
}

/// Changing a row leaves the others as they were.
pub broadcast proof fn lemma_other_rows_stay(
    m: SessionsModel,
    conn: Conn,
    row: RowModel,
    other: Conn,
)
    requires
        row.conn == conn,
        other != conn,
    ensures
        (#[trigger] m.with_row(conn, row).row(other)) == m.row(other),
{
    lemma_seat(m.rows, conn, 0);
    lemma_seat(m.rows, other, 0);
    if m.seat(conn) < m.rows.len() {
        lemma_seat_past(m.rows, m.seat(conn) as int, row, other, 0);
    }
}

/// Changing a row twice is changing it once.
pub broadcast proof fn lemma_a_row_changed_twice(
    m: SessionsModel,
    conn: Conn,
    first: RowModel,
    second: RowModel,
)
    requires
        first.conn == conn,
    ensures
        #[trigger] m.with_row(conn, first).with_row(conn, second) == m.with_row(conn, second),
{
    lemma_seat(m.rows, conn, 0);
    if m.seat(conn) < m.rows.len() {
        lemma_a_changed_row_is_found(m, conn, first);
        assert(m.rows.update(m.seat(conn) as int, Some(first)).update(
            m.seat(conn) as int,
            Some(second),
        ) =~= m.rows.update(m.seat(conn) as int, Some(second)));
    }
}

/// A row put back as it was changes nothing.
pub broadcast proof fn lemma_a_row_put_back(m: SessionsModel, conn: Conn, row: RowModel)
    requires
        m.row(conn) == Some(row),
    ensures
        #[trigger] m.with_row(conn, row) == m,
{
    lemma_seat(m.rows, conn, 0);
    assert(m.rows.update(m.seat(conn) as int, Some(row)) =~= m.rows);
}

/// A row found carries its handle.
pub broadcast proof fn lemma_a_row_carries_its_handle(m: SessionsModel, conn: Conn)
    ensures
        (#[trigger] m.row(conn)) matches Some(row) ==> row.conn == conn,
{
    lemma_seat(m.rows, conn, 0);
}

/// Rows whose sessions all were there before, on the same handles, drop what
/// was dropped before.
pub proof fn lemma_sessions_kept_shut(before: SessionsModel, after: SessionsModel)
    requires
        before.sound(),
        after.rows.len() == before.rows.len(),
        forall|i: int|
            0 <= i < after.rows.len() && ((#[trigger] after.rows[i]) matches Some(row)
                && row.bound is Session) ==> (before.rows[i] matches Some(held) && held.conn
                == after.rows[i]->0.conn && held.bound == after.rows[i]->0.bound),
    ensures
        before.keeps_shut(after),
{
    assert forall|conn: Conn, serial: u32, frame: Seq<u8>| before.shut(
        conn,
        serial,
        frame,
    ) implies #[trigger] after.shut(conn, serial, frame) by {
        lemma_seat(after.rows, conn, 0);
        lemma_seat(before.rows, conn, 0);
        if after.session(conn) is Some {
            let i = after.seat(conn) as int;
            assert(before.rows[i]->0.conn == conn);
            assert(before.seat(conn) == i);
        }
    }
}

impl SessionsModel {
    /// The rows once a transport is announced, and how that is answered.
    pub open spec fn announced(self, conn: Conn) -> (Self, ClientConnected) {
        let free = free_from(self.rows, 0);
        if self.row(conn) is Some {
            (self, ClientConnected::RefusedHandleInUse)
        } else if free < self.rows.len() {
            (
                SessionsModel {
                    rows: self.rows.update(free as int, Some(RowModel::fresh(conn))),
                    ..self
                },
                ClientConnected::Accepted,
            )
        } else {
            (self, ClientConnected::RefusedTableFull)
        }
    }

    /// The rows once a transport has gone, and how that is answered.
    pub open spec fn released(self, conn: Conn) -> (Self, ClientDisconnected) {
        if self.row(conn) is Some {
            (
                SessionsModel { rows: self.rows.update(self.seat(conn) as int, None), ..self },
                ClientDisconnected::Released,
            )
        } else {
            (self, ClientDisconnected::UnknownHandle)
        }
    }

    /// The rows after a look at the time.
    pub open spec fn ticked(self, now: Tick) -> Self {
        SessionsModel {
            rows: Seq::new(
                self.rows.len(),
                |i: int|
                    match self.rows[i] {
                        Some(row) => Some(row.ticked(now)),
                        None => None,
                    },
            ),
            time: match self.time {
                Some(asked) if spec_time_expired(asked.asked, now) => None,
                other => other,
            },
            ..self
        }
    }

    /// The row the next job is handed out from, if one is.
    pub open spec fn next(self) -> Option<int> {
        if self.computing is Some {
            None
        } else {
            next_from(self.rows, self.served + 1, 0)
        }
    }

    /// The rows once the job of a row is handed out.
    pub open spec fn handed_out(self, i: int) -> Self {
        SessionsModel {
            rows: self.rows.update(
                i,
                Some(RowModel { work: WorkModel::Computing, ..self.rows[i]->0 }),
            ),
            computing: Some(self.rows[i]->0.work->Queued_0.ticket),
            served: i,
            ..self
        }
    }

    /// The worker counted free of a job.
    pub open spec fn back(self, ticket: Ticket) -> Self {
        SessionsModel {
            computing: if self.computing == Some(ticket) {
                None
            } else {
                self.computing
            },
            ..self
        }
    }

    /// Whether a job's result is still the one its row waits for.
    pub open spec fn current(self, ticket: Ticket) -> bool {
        self.row(ticket.conn) matches Some(row) && row.attempt == ticket.attempt && row.work
            is Computing
    }

    /// The rows once a job could not be handed to the worker.
    pub open spec fn unsent(self, job: JobModel) -> Self {
        let back = self.back(job.ticket);
        if back.current(job.ticket) {
            back.with_row(
                job.ticket.conn,
                RowModel { work: WorkModel::Queued(job), ..back.row(job.ticket.conn)->0 },
            )
        } else {
            back
        }
    }

    /// The rows once every session of a client has ended.
    pub open spec fn unbound(self, client: ClientId) -> Self {
        SessionsModel {
            rows: Seq::new(
                self.rows.len(),
                |i: int|
                    match self.rows[i] {
                        Some(row) => Some(
                            if row.bound matches Bound::Session(binding) && binding.client
                                == client {
                                RowModel { bound: Bound::Ended, ..row }
                            } else {
                                row
                            },
                        ),
                        None => None,
                    },
            ),
            ..self
        }
    }

    /// The rows once every session has ended and every handshake is abandoned.
    pub open spec fn reset(self) -> Self {
        SessionsModel {
            rows: Seq::new(
                self.rows.len(),
                |i: int|
                    match self.rows[i] {
                        Some(row) => Some(
                            RowModel {
                                bound: if row.bound is Session {
                                    Bound::Ended
                                } else {
                                    row.bound
                                },
                                ..row.abandoned()
                            },
                        ),
                        None => None,
                    },
            ),
            ..self
        }
    }

    /// The rows once one more failure is counted against a handle.
    pub open spec fn counted(self, conn: Conn, now: Tick) -> Self {
        match self.row(conn) {
            Some(row) => self.with_row(conn, row.failing(now)),
            None => self,
        }
    }

    /// Whether one more failure against a handle sheds it.
    pub open spec fn sheds(self, conn: Conn, now: Tick) -> bool {
        self.row(conn) matches Some(row) && row.sheds(now)
    }

    /// Whether the unit has what a challenge is given for.
    pub open spec fn provisioned(self) -> bool {
        self.keys.secret is Some && self.keys.epoch is Some && self.keys.controller
    }

    /// The rows once a handle that owes a challenge has one.
    pub open spec fn settled(self, conn: Conn, drawn: [u8; 16], now: Tick) -> Self {
        match self.row(conn) {
            Some(row) if self.provisioned() && row.challenge == Challenge::Owed => self.with_row(
                conn,
                RowModel { challenge: Challenge::Live { bytes: drawn, minted: now }, ..row },
            ),
            _ => self,
        }
    }

    /// The handles among the first `n` rows that owe a challenge.
    pub open spec fn owing_in(self, n: nat) -> Seq<Conn>
        decreases n,
    {
        if n == 0 || !self.provisioned() {
            Seq::empty()
        } else {
            let before = self.owing_in((n - 1) as nat);
            match self.rows[n - 1] {
                Some(row) if row.challenge == Challenge::Owed => before.push(row.conn),
                _ => before,
            }
        }
    }
}

} // verus!
