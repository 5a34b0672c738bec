//! The connection rows, the challenge each one holds, the pairing handshake it
//! may be in, and the session a `Hello` binds onto it.
//!
//! **A row is allocated before it is bound.** The comms processor announces a
//! transport and the controller gives it a row, and the row holds the
//! connection's challenge from that moment; a `Hello` that proves its slot's
//! key binds a session onto it; `Goodbye` clears the binding and leaves the
//! row to the transport that is still open; only the transport going, or the
//! comms processor rebooting, frees the row. Eight rows, and a ninth
//! announcement is refused rather than evicting one. The session's id is the
//! row's handle.
//!
//! **A challenge is a draw** from the generator, one per row at most, single
//! use, and dead at 120 seconds or with its connection. A `Discover` is
//! answered with the row's live one or a fresh one, never a dead one, and
//! error 18 when there is none to give.
//!
//! **Nothing here computes a key agreement.** What is cheap is done as the
//! frame arrives; what is left is queued as a [`Job`], one per row, handed out
//! one at a time and in turn, and its answer is sent when the [`Done`] comes
//! back. A handshake is abandoned on any failure, on a second one on the same
//! row, when the row goes, 120 seconds after its first message, and on a
//! factory reset; a result for one that was abandoned is discarded.
//!
//! **Every request after a `Hello` is sealed.** It is opened under the
//! session's keys, whose window drops a replayed or stale request unanswered
//! and uncounted; only a request that opened refreshes the session, and a tag
//! that fails counts against the connection.
//!
//! **What the part, the generator and the other tables answer is asked for.**
//! A step that needs one stops with an [`Ask`], and the method that takes the
//! answer carries on from there.

use vstd::prelude::*;

use crate::bytes::{copy_at, copy_of};
use crate::body::Refused;
use crate::clients::{
    keys_in, Occupant, Place, READ_PRIVATE, SET_CLOCK, SLOTS, WRITE_CONFIG, WRITE_NETWORK_AND_CLOUD,
};
use crate::idents::{ClientId, Conn, Epoch, Generation, ReqId};
use crate::request::{
    again_verdict, asked_with, Admission, Again, CommandAck, Executed, Header, Permit, SignedWrite,
    Unchanged, Verdict, COMMAND, SET_CONFIG, TIME,
};
use crate::session_ask::{
    answering, lemma_keys_of, says, steps, AgainAsk, Ask, Asker, EnrolAsk, FinishAsk, HelloAsk,
    MatchAsk, PairAsk, ReadAsk, Refresh, ReserveAsk, SetAsk, Step, StoreAsk, VersionAsk, WifiAsk,
    WifiAsked,
};
use crate::session_model::{
    allocated_in, bound_in, expired_in, free_from, lemma_a_changed_row_is_found,
    lemma_a_changed_row_is_sound, lemma_a_row_carries_its_handle, lemma_a_row_changed_twice,
    lemma_a_row_put_back, lemma_other_rows_stay, lemma_seat, lemma_sessions_kept_shut, next_from,
    rows_of, seat_from, waits, SessionsModel,
};
use crate::session_state::{
    alive, outlived, time_expired, Addressed, AskedTime, Binding, Bound, Challenge, ClientConnected,
    ClientDisconnected, Close, CloseReason, Compat, Computed, Done, Facts, Job, Keys, Offer, Pairing, Reply,
    Report, Row, RowModel,
    SessionNote, Task, Ticket, TimeAsked, Work, WorkModel, CONNECTIONS, LABEL_BYTES, MAX_FRAME, UNSPECIFIED,
};
use crate::secret::Secret;
use crate::session_steps::{
    bare_said, discovery_said, mask_of, ready_of, report_model, spec_allows, spec_on_session,
    spec_private, spec_required, unreadable_said, AUTH_FAILED, BEFORE_LINK_UP, BUSY, CLOUD_SECTION,
    COMMAND_RESPONSE, DISCOVER, ENROL, ERROR, EXPIRED, GET_CONFIG, GET_CONFIG_RESPONSE, GOODBYE,
    GOODBYE_RESPONSE, HELLO, HELLO_FIRST, LINK_CODES, LINK_TYPE, MALFORMED, NETWORK_SECTION,
    NOT_PERMITTED, NO_CHALLENGE, PAIR, SET_CONFIG_RESPONSE, STALE_CHALLENGE, TIME_RESPONSE,
    TOO_LARGE, UNKNOWN_CLIENT, UNKNOWN_HANDLE, UNKNOWN_TYPE, VOUCH, VOUCH_RESPONSE, WIFI_SCAN,
    WIFI_SCAN_RESPONSE, WIFI_STATUS, WIFI_STATUS_RESPONSE,
};
use crate::session_wire::{
    answer_enrol, build_prologue, client_of, encode_command_ack, encode_error,
    encode_set_config_ack, encode_time_ack, encode_vouch, hello_reads, kind_of, open_pair,
    open_sealed, opening, pair_reads, prologue_bytes, read_command, read_empty, read_get_config, read_hello,
    read_kind, read_pair, read_scalars, read_scan, read_set_config, read_time, read_vouch,
    refuse_pair, scalars_of, seal, write_discovery, write_error, wrote, CommandModel,
    CommandOperation, Fault, Outcome, PairRefusal, SetConfig, SetConfigOperation, TimeOutcome,
    Unread,
};
use crate::text::Text;
use crate::tick::Tick;

verus! {

broadcast use {
    lemma_a_changed_row_is_sound,
    lemma_a_changed_row_is_found,
    lemma_a_row_changed_twice,
    lemma_a_row_put_back,
    lemma_a_row_carries_its_handle,
    lemma_other_rows_stay,
};

/// The rows and what the controller keeps for the client protocol.
pub struct Sessions {
    rows: Vec<Option<Row>>,
    keys: Keys,
    bindings: u32,
    time: Option<AskedTime>,
    tickets: u32,
    computing: Option<Ticket>,
    served: usize,
}

/// The connections a tick found expired, to close.
#[derive(Debug, PartialEq, Eq)]
#[must_use]
pub struct Expired(pub Vec<Close>);

impl Expired {
    /// Each connection whose session expired.
    pub fn iter(&self) -> (r: &[Close])
        ensures
            r@ == self.0@,
    {
        self.0.as_slice()
    }
}

impl Sessions {
    /// What the rows and what is kept beside them are.
    pub closed spec fn model(&self) -> SessionsModel {
        SessionsModel {
            rows: rows_of(self.rows@),
            keys: self.keys@,
            bindings: self.bindings,
            time: self.time,
            tickets: self.tickets,
            computing: self.computing,
            served: self.served as int,
        }
    }

    /// Where a handle's row is.
    fn find(&self, conn: Conn) -> (r: usize)
        ensures
            r == self.model().seat(conn),
            r <= self.rows@.len(),
            r < self.rows@.len() ==> self.rows@[r as int] is Some && self.rows@[r as int]->0.conn
                == conn,
    {
        let ghost m = self.model();
        let mut i: usize = 0;
        while i < self.rows.len()
            invariant
                m == self.model(),
                i <= self.rows@.len(),
                m.seat(conn) == seat_from(m.rows, conn, i as nat),
            decreases self.rows@.len() - i,
        {
            if let Some(row) = &self.rows[i] {
                if row.conn == conn {
                    return i;
                }
            }
            i = i + 1;
        }
        i
    }

    /// A handle's row.
    pub fn row(&self, conn: Conn) -> (r: Option<&Row>)
        ensures
            match r {
                Some(row) => self.model().row(conn) == Some(row@) && row.conn == conn,
                None => self.model().row(conn) is None,
            },
    {
        let i = self.find(conn);
        if i < self.rows.len() {
            self.rows[i].as_ref()
        } else {
            None
        }
    }

    /// A handle's row, to change.
    fn row_mut(&mut self, conn: Conn) -> (r: Option<&mut Row>)
        ensures
            match r {
                Some(row) => {
                    &&& old(self).model().row(conn) == Some(row@)
                    &&& row.conn == conn
                    &&& final(self).model() == old(self).model().with_row(conn, final(row)@)
                },
                None => {
                    &&& old(self).model().row(conn) is None
                    &&& *final(self) == *old(self)
                },
            },
    {
        let i = self.find(conn);
        if i < self.rows.len() {
            self.rows[i].as_mut()
        } else {
            None
        }
    }

    /// No connections, and the keys the boot read.
    pub fn new(keys: Keys) -> (r: Self)
        ensures
            r.model() == (SessionsModel {
                rows: Seq::new(CONNECTIONS as nat, |i: int| None::<RowModel>),
                keys: keys@,
                bindings: 0,
                time: None,
                tickets: 0,
                computing: None,
                served: 0,
            }),
            r.model().sound(),
    {
        let r = Sessions {
            rows: free_rows(),
            keys,
            bindings: 0,
            time: None,
            tickets: 0,
            computing: None,
            served: 0,
        };
        proof {
            assert(r.model().rows =~= Seq::new(CONNECTIONS as nat, |i: int| None::<RowModel>));
        }
        r
    }

    /// What the rows are kept under.
    pub fn keys(&self) -> (r: &Keys)
        ensures
            r@ == self.model().keys,
    {
        &self.keys
    }

    /// Allocated rows, bound or not.
    pub fn allocated(&self) -> (r: u8)
        requires
            self.model().sound(),
        ensures
            r == allocated_in(self.model().rows, CONNECTIONS as nat),
    {
        let ghost m = self.model();
        let mut n: u8 = 0;
        let mut i: usize = 0;
        while i < self.rows.len()
            invariant
                m == self.model(),
                self.rows@.len() == CONNECTIONS,
                n <= i <= self.rows@.len(),
                n == allocated_in(m.rows, i as nat),
            decreases self.rows@.len() - i,
        {
            if self.rows[i].is_some() {
                n = n + 1;
            }
            i = i + 1;
        }
        n
    }

    /// Sessions bound onto those rows.
    pub fn bound(&self) -> (r: usize)
        requires
            self.model().sound(),
        ensures
            r == bound_in(self.model().rows, CONNECTIONS as nat),
    {
        let ghost m = self.model();
        let mut n: usize = 0;
        let mut i: usize = 0;
        while i < self.rows.len()
            invariant
                m == self.model(),
                self.rows@.len() == CONNECTIONS,
                n <= i <= self.rows@.len(),
                n == bound_in(m.rows, i as nat),
            decreases self.rows@.len() - i,
        {
            if let Some(row) = &self.rows[i] {
                if let Bound::Session(_) = &row.bound {
                    n = n + 1;
                }
            }
            i = i + 1;
        }
        n
    }

    /// Whether a session is bound on `conn`.
    pub fn is_bound(&self, conn: Conn) -> (r: bool)
        ensures
            r == (self.model().session(conn) is Some),
    {
        match self.row(conn) {
            Some(row) => match &row.bound {
                Bound::Session(_) => true,
                _ => false,
            },
            None => false,
        }
    }

    /// The client whose proof bound the session on `conn`, if one is bound.
    pub fn proven(&self, conn: Conn) -> (r: Option<ClientId>)
        ensures
            r == match self.model().session(conn) {
                Some(binding) => Some(binding.client),
                None => None,
            },
    {
        match self.row(conn) {
            Some(row) => match &row.bound {
                Bound::Session(binding) => Some(binding.client),
                _ => None,
            },
            None => None,
        }
    }

    /// The comms processor announced a transport. A handle already allocated
    /// is refused, since the comms processor must not reuse one before its
    /// release is answered; a full table is refused and nothing is evicted. An
    /// accepted row owes a challenge, which [`Sessions::settle`] mints before
    /// the next frame is read. Nothing about the transport or the peer enters
    /// the decision.
    pub fn announce(&mut self, conn: Conn) -> (r: ClientConnected)
        requires
            old(self).model().sound(),
        ensures
            (final(self).model(), r) == old(self).model().announced(conn),
            final(self).model().sound(),
            old(self).model().keeps_shut(final(self).model()),
    {
        let ghost m = self.model();
        if self.row(conn).is_some() {
            return ClientConnected::RefusedHandleInUse;
        }
        let mut i: usize = 0;
        while i < self.rows.len()
            invariant
                m == self.model(),
                i <= self.rows@.len(),
                free_from(m.rows, 0) == free_from(m.rows, i as nat),
            ensures
                m == self.model(),
                i <= self.rows@.len(),
                i == free_from(m.rows, 0),
            decreases self.rows@.len() - i,
        {
            if self.rows[i].is_none() {
                break;
            }
            i = i + 1;
        }
        if i < self.rows.len() {
            self.rows[i] = Some(Row::new(conn));
            proof {
                lemma_seat(m.rows, conn, 0);
                assert(self.model().rows =~= m.rows.update(
                    i as int,
                    Some(RowModel::fresh(conn)),
                ));
                lemma_sessions_kept_shut(m, self.model());
            }
            ClientConnected::Accepted
        } else {
            ClientConnected::RefusedTableFull
        }
    }

    /// The transport went: the row, its challenge, any handshake and any
    /// session on it go with it.
    pub fn release(&mut self, conn: Conn) -> (r: ClientDisconnected)
        requires
            old(self).model().sound(),
        ensures
            (final(self).model(), r) == old(self).model().released(conn),
            final(self).model().sound(),
            old(self).model().keeps_shut(final(self).model()),
    {
        let ghost m = self.model();
        let i = self.find(conn);
        if i < self.rows.len() {
            self.rows[i] = None;
            proof {
                assert(self.model().rows =~= m.rows.update(i as int, None));
                lemma_sessions_kept_shut(m, self.model());
            }
            ClientDisconnected::Released
        } else {
            ClientDisconnected::UnknownHandle
        }
    }

    /// Every row goes: the comms processor rebooted, the link fell, or the
    /// bench took the module.
    pub fn drop_all(&mut self)
        requires
            old(self).model().sound(),
        ensures
            final(self).model() == (SessionsModel {
                rows: Seq::new(CONNECTIONS as nat, |i: int| None::<RowModel>),
                ..old(self).model()
            }),
            final(self).model().sound(),
            old(self).model().keeps_shut(final(self).model()),
    {
        self.rows = free_rows();
        proof {
            assert(self.model().rows =~= Seq::new(CONNECTIONS as nat, |i: int| None::<RowModel>));
        }
    }

    /// Sessions whose last proven frame is fifteen minutes old are unbound,
    /// their keys destroyed, and their transports to be closed. Pairing
    /// handshakes 120 seconds past their first message are abandoned. The row
    /// stays allocated until the transport goes.
    pub fn tick(&mut self, now: Tick) -> (r: Expired)
        requires
            old(self).model().sound(),
        ensures
            final(self).model() == old(self).model().ticked(now),
            r.0@ == expired_in(old(self).model().rows, now, CONNECTIONS as nat),
            final(self).model().sound(),
            old(self).model().keeps_shut(final(self).model()),
    {
        let ghost m = self.model();
        if let Some(asked) = self.time {
            if time_expired(asked.asked, now) {
                self.time = None;
            }
        }
        let mut expired: Vec<Close> = Vec::new();
        let mut i: usize = 0;
        while i < self.rows.len()
            invariant
                self.model().rows.len() == m.rows.len() == CONNECTIONS,
                i <= self.rows@.len(),
                self.model() == (SessionsModel {
                    rows: self.model().rows,
                    time: m.ticked(now).time,
                    ..m
                }),
                forall|j: int|
                    0 <= j < i ==> (#[trigger] self.model().rows[j]) == m.ticked(now).rows[j],
                forall|j: int| i <= j < m.rows.len() ==> (#[trigger] self.model().rows[j]) == m.rows[j],
                expired@ == expired_in(m.rows, now, i as nat),
            decreases self.rows@.len() - i,
        {
            let ghost before = self.model();
            proof {
                assert(before.rows[i as int] == m.rows[i as int]);
            }
            if let Some(row) = &mut self.rows[i] {
                if row.tick(now) {
                    expired.push(Close { conn: row.conn, reason: CloseReason::SessionExpired });
                }
            }
            proof {
                assert(self.model().rows[i as int] == m.ticked(now).rows[i as int]);
                assert forall|j: int| 0 <= j < m.rows.len() && j != i implies (
                #[trigger] self.model().rows[j]) == before.rows[j] by {}
            }
            i = i + 1;
        }
        proof {
            assert(self.model().rows =~= m.ticked(now).rows);
            lemma_sessions_kept_shut(m, self.model());
        }
        Expired(expired)
    }

    /// The next key agreement to compute, if none is out and one waits: the
    /// first queued after the row served last, so connections take turns. Hand
    /// it to the worker and bring its result back to
    /// [`Sessions::completed`].
    pub fn next_job(&mut self) -> (r: Option<Job>)
        requires
            old(self).model().sound(),
        ensures
            match r {
                Some(job) => {
                    &&& old(self).model().next() matches Some(i)
                    &&& 0 <= i < CONNECTIONS
                    &&& old(self).model().rows[i] matches Some(row)
                    &&& row.work == WorkModel::Queued(job@)
                    &&& final(self).model() == old(self).model().handed_out(i)
                },
                None => {
                    &&& old(self).model().next() is None
                    &&& final(self).model() == old(self).model()
                },
            },
            final(self).model().sound(),
            old(self).model().keeps_shut(final(self).model()),
    {
        let ghost m = self.model();
        if self.computing.is_some() {
            return None;
        }
        let start = self.served + 1;
        let mut step: usize = 0;
        while step < CONNECTIONS
            invariant
                m == self.model(),
                m == old(self).model(),
                m.sound(),
                m.computing is None,
                start == m.served + 1,
                step <= CONNECTIONS,
                m.next() == next_from(m.rows, start as int, step as nat),
            decreases CONNECTIONS - step,
        {
            let i = (start + step) % CONNECTIONS;
            proof {
                assert(waits(m.rows[i as int]) ==> m.next() == Some(i as int));
            }
            let found = match &mut self.rows[i] {
                Some(row) => row.take_job(),
                None => None,
            };
            if let Some(job) = found {
                self.served = i;
                self.computing = Some(job.ticket);
                proof {
                    assert(m.rows[i as int]->0.work == WorkModel::Queued(job@));
                    assert(self.model().rows =~= m.handed_out(i as int).rows);
                    lemma_sessions_kept_shut(m, self.model());
                }
                return Some(job);
            }
            proof {
                assert(self.model().rows =~= m.rows);
            }
            step = step + 1;
        }
        None
    }

    /// A job the adapter could not hand to the worker: back on its row to be
    /// handed out again, and the worker counted free.
    pub fn unsent(&mut self, job: Job)
        requires
            old(self).model().sound(),
        ensures
            final(self).model() == old(self).model().unsent(job@),
            final(self).model().sound(),
            old(self).model().keeps_shut(final(self).model()),
    {
        let ticket = job.ticket;
        if self.computing == Some(ticket) {
            self.computing = None;
        }
        if let Some(row) = self.row_mut(ticket.conn) {
            if row.attempt == ticket.attempt {
                if let Work::Computing = row.work {
                    row.work = Work::Queued(job);
                }
            }
        }
    }

    /// Whether a job is out at the worker.
    pub fn is_computing(&self) -> (r: bool)
        ensures
            r == (self.model().computing is Some),
    {
        self.computing.is_some()
    }
}

/// An answer written, or one that did not fit.
fn answered(len: Option<usize>) -> (r: Reply)
    ensures
        r == match len {
            Some(len) => Reply { answer: Some(len), close: None, note: None },
            None => Reply { answer: None, close: None, note: Some(SessionNote::TooLarge) },
        },
{
    match len {
        Some(len) => Reply { answer: Some(len), close: None, note: None },
        None => Reply::noted(SessionNote::TooLarge),
    }
}

/// An answer the worker wrote, copied into the adapter's buffer.
fn copied(answer: &[u8], dst: &mut [u8]) -> (r: Reply)
    ensures
        says(r, old(dst)@, final(dst)@, answering(Some(answer@))),
{
    if answer.len() <= dst.len() {
        copy_at(dst, 0, answer);
        answered(Some(answer.len()))
    } else {
        answered(None)
    }
}

/// A bare error: no key for this session, or none earned by the frame.
fn bare(to: Addressed, code: u16, dst: &mut [u8]) -> (r: Reply)
    ensures
        says(r, old(dst)@, final(dst)@, bare_said(to, code)),
{
    let written = write_error(code, to.conn.get(), to.req_id, dst);
    answered(written).with(SessionNote::Refused(code))
}

/// Error 1 to nobody, for a frame whose four elements did not read. It names
/// no connection, so it stays on the link as a refusal of the comms
/// processor's frame.
fn unreadable(dst: &mut [u8]) -> (r: Reply)
    ensures
        says(r, old(dst)@, final(dst)@, unreadable_said()),
{
    let written = write_error(MALFORMED, 0, ReqId(0), dst);
    let reply = answered(written);
    if reply.answer.is_some() {
        reply.with(SessionNote::Unreadable)
    } else {
        reply
    }
}

/// The bytes of a body that may not have been encoded.
pub open spec fn body_bytes(body: Option<Vec<u8>>) -> Option<Seq<u8>> {
    match body {
        Some(body) => Some(body@),
        None => None,
    }
}

impl Sessions {
    /// Seal a body for the session on a handle.
    fn seal_for(&mut self, to: Addressed, kind: u8, body: Option<Vec<u8>>, dst: &mut [u8]) -> (r:
        Option<usize>)
        ensures
            wrote(
                r,
                old(dst)@,
                final(dst)@,
                old(self).model().image(to, kind, body_bytes(body)),
            ),
            final(self).model() == old(self).model().sealed(to, kind, body_bytes(body)),
            old(self).model().sound() ==> final(self).model().sound(),
            old(self).model().keeps_shut(final(self).model()),
    {
        match body {
            None => None,
            Some(body) => match self.row_mut(to.conn) {
                None => None,
                Some(row) => match &mut row.bound {
                    Bound::Session(binding) => seal(
                        &mut binding.channel,
                        kind,
                        to.conn,
                        to.req_id,
                        body.as_slice(),
                        dst,
                    ),
                    _ => None,
                },
            },
        }
    }

    /// An error, sealed, for a request that opened.
    fn sealed_error(&mut self, to: Addressed, code: u16, dst: &mut [u8]) -> (r: Reply)
        ensures
            final(self).model() == old(self).model().sealed_error(to, code).0,
            says(r, old(dst)@, final(dst)@, old(self).model().sealed_error(to, code).1),
            old(self).model().sound() ==> final(self).model().sound(),
            old(self).model().keeps_shut(final(self).model()),
    {
        let body = encode_error(code);
        let written = self.seal_for(to, ERROR, body, dst);
        answered(written).with(SessionNote::Refused(code))
    }

    /// A refusal of a request that opened: sealed; one about the link, bare.
    fn refused_under(&mut self, to: Addressed, code: u16, dst: &mut [u8]) -> (r: Reply)
        ensures
            final(self).model() == old(self).model().refused_under(to, code).0,
            says(r, old(dst)@, final(dst)@, old(self).model().refused_under(to, code).1),
            old(self).model().sound() ==> final(self).model().sound(),
            old(self).model().keeps_shut(final(self).model()),
    {
        if code < LINK_CODES {
            self.sealed_error(to, code, dst)
        } else {
            bare(to, code, dst)
        }
    }

    /// One more failure against `conn`; whether it reached the threshold,
    /// which ends any session on it.
    fn count_failure(&mut self, conn: Conn, now: Tick) -> (r: bool)
        ensures
            final(self).model() == old(self).model().counted(conn, now),
            r == old(self).model().sheds(conn, now),
            old(self).model().sound() ==> final(self).model().sound(),
            old(self).model().keeps_shut(final(self).model()),
    {
        match self.row_mut(conn) {
            Some(row) => {
                let shed = row.failed(now);
                if shed {
                    row.bound = Bound::Ended;
                    row.abandon();
                }
                shed
            },
            None => false,
        }
    }

    /// A refusal answered bare, counted against the connection when the peer
    /// failed a check it should have passed; the one that reaches the
    /// threshold ends any session on it and closes it.
    fn refused(&mut self, to: Addressed, code: u16, counted: bool, now: Tick, dst: &mut [u8]) -> (r:
        Reply)
        ensures
            final(self).model() == old(self).model().refused(to, code, counted, now).0,
            says(
                r,
                old(dst)@,
                final(dst)@,
                old(self).model().refused(to, code, counted, now).1,
            ),
            old(self).model().sound() ==> final(self).model().sound(),
            old(self).model().keeps_shut(final(self).model()),
    {
        let shed = counted && self.count_failure(to.conn, now);
        let mut reply = bare(to, code, dst);
        if shed {
            reply.close = Some(
                Close { conn: to.conn, reason: CloseReason::AuthenticationFailures },
            );
        }
        reply
    }

    /// A check that failed: refused and counted as it says, or dropped
    /// unanswered.
    fn unopened(&mut self, to: Addressed, why: Fault, now: Tick, dst: &mut [u8]) -> (r: Reply)
        ensures
            final(self).model() == old(self).model().faulted(to, why, now).0,
            says(r, old(dst)@, final(dst)@, old(self).model().faulted(to, why, now).1),
            old(self).model().sound() ==> final(self).model().sound(),
            old(self).model().keeps_shut(final(self).model()),
    {
        match why.code {
            Some(code) => self.refused(to, code, why.counts, now, dst),
            None => Reply::noted(SessionNote::Dropped),
        }
    }

    /// A pairing message that did not read or did not open: its handshake
    /// abandoned, and answered as the fault says, counted when it says.
    fn pair_refused(&mut self, to: Addressed, why: Fault, now: Tick, dst: &mut [u8]) -> (r: Reply)
        ensures
            final(self).model() == old(self).model().pair_refused(to, why, now).0,
            says(r, old(dst)@, final(dst)@, old(self).model().pair_refused(to, why, now).1),
            old(self).model().sound() ==> final(self).model().sound(),
            old(self).model().keeps_shut(final(self).model()),
    {
        if let Some(row) = self.row_mut(to.conn) {
            row.abandon();
        }
        self.unopened(to, why, now, dst)
    }
}

impl Sessions {
    /// The secret and the epoch, when the unit can pair and let anybody in at
    /// all: a controller key as well.
    fn ready(&self) -> (r: Option<(Secret, Epoch)>)
        ensures
            match r {
                Some((secret, epoch)) => ready_of(self.model().keys) == Some((secret@, epoch)),
                None => ready_of(self.model().keys) is None,
            },
    {
        if self.keys.controller.is_none() {
            return None;
        }
        match (self.keys.secret, self.keys.epoch) {
            (Some(secret), Some(epoch)) => Some((secret, epoch)),
            _ => None,
        }
    }

    /// Whether the unit has what a challenge is given for.
    fn provisioned(&self) -> (r: bool)
        ensures
            r == self.model().provisioned(),
    {
        self.keys.secret.is_some() && self.keys.epoch.is_some() && self.keys.controller.is_some()
    }

    /// The mask of the enrolment the session on a handle is bound to, while it
    /// is still the slot's.
    fn mask(&self, client: ClientId, generation: Generation) -> (r: Option<u16>)
        ensures
            forall|binding: Binding|
                binding.client == client && binding.generation == generation ==> r == #[trigger] mask_of(
                    self.model().keys,
                    binding,
                ),
    {
        if self.keys.epoch.is_none() {
            return None;
        }
        match self.keys.clients.occupant(client) {
            Some(held) => if held.generation == generation {
                Some(held.role.mask())
            } else {
                None
            },
            None => None,
        }
    }

    /// The handles that owe a challenge, each to be drawn and handed to
    /// [`Sessions::settle`]; none on a unit that has nothing to give one for.
    pub fn owing(&self) -> (r: Vec<Conn>)
        requires
            self.model().sound(),
        ensures
            r@ == self.model().owing_in(CONNECTIONS as nat),
    {
        let ghost m = self.model();
        let mut owing: Vec<Conn> = Vec::new();
        if !self.provisioned() {
            return owing;
        }
        let mut i: usize = 0;
        while i < self.rows.len()
            invariant
                m == self.model(),
                m.provisioned(),
                self.rows@.len() == CONNECTIONS,
                i <= self.rows@.len(),
                owing@ == m.owing_in(i as nat),
            decreases self.rows@.len() - i,
        {
            if let Some(row) = &self.rows[i] {
                if let Challenge::Owed = row.challenge {
                    owing.push(row.conn);
                }
            }
            i = i + 1;
        }
        owing
    }

    /// The challenge a row owes was drawn, its successor on the part. A draw
    /// that fails leaves the row owing, and the connection's first `Discover`
    /// tries again.
    pub fn settle(&mut self, conn: Conn, drawn: [u8; 16], now: Tick)
        requires
            old(self).model().sound(),
        ensures
            final(self).model() == old(self).model().settled(conn, drawn, now),
            final(self).model().sound(),
            old(self).model().keeps_shut(final(self).model()),
    {
        if !self.provisioned() {
            return;
        }
        if let Some(row) = self.row_mut(conn) {
            if let Challenge::Owed = row.challenge {
                row.challenge = Challenge::Live { bytes: drawn, minted: now };
            }
        }
    }

    /// End every session bound to `client`, leaving the rows to their
    /// transports.
    fn unbind(&mut self, client: ClientId)
        requires
            old(self).model().sound(),
        ensures
            final(self).model() == old(self).model().unbound(client),
            final(self).model().sound(),
            old(self).model().keeps_shut(final(self).model()),
    {
        let ghost m = self.model();
        let mut i: usize = 0;
        while i < self.rows.len()
            invariant
                m.sound(),
                self.model().rows.len() == m.rows.len(),
                i <= self.rows@.len(),
                self.model() == (SessionsModel { rows: self.model().rows, ..m }),
                forall|j: int|
                    0 <= j < i ==> (#[trigger] self.model().rows[j]) == m.unbound(client).rows[j],
                forall|j: int| i <= j < m.rows.len() ==> (#[trigger] self.model().rows[j]) == m.rows[j],
            decreases self.rows@.len() - i,
        {
            let ghost before = self.model();
            proof {
                assert(before.rows[i as int] == m.rows[i as int]);
            }
            if let Some(row) = &mut self.rows[i] {
                let theirs = match &row.bound {
                    Bound::Session(binding) => binding.client == client,
                    _ => false,
                };
                if theirs {
                    row.bound = Bound::Ended;
                }
            }
            proof {
                assert(self.model().rows[i as int] == m.unbound(client).rows[i as int]);
                assert forall|j: int| 0 <= j < m.rows.len() && j != i implies (
                #[trigger] self.model().rows[j]) == before.rows[j] by {}
            }
            i = i + 1;
        }
        proof {
            assert(self.model().rows =~= m.unbound(client).rows);
            lemma_sessions_kept_shut(m, self.model());
        }
    }

    /// The physical factory reset, before anything is written: every session
    /// unbound and every handshake abandoned, whatever comes of the writes.
    /// The rows stay with their transports. What the network section holds
    /// says what is done to it first.
    pub fn factory_reset(&mut self, network: NetworkHeld) -> (r: Result<NetworkReset, ResetFailed>)
        requires
            old(self).model().sound(),
        ensures
            final(self).model() == old(self).model().reset(),
            final(self).model().sound(),
            r == match network {
                NetworkHeld::Present { clears: true } => Ok::<NetworkReset, ResetFailed>(
                    NetworkReset::ClearAndErasePrevious,
                ),
                NetworkHeld::Present { clears: false } => Err(
                    ResetFailed::Network(Refused::AtTheCeiling),
                ),
                NetworkHeld::Other => Ok(NetworkReset::Erase),
            },
            old(self).model().keeps_shut(final(self).model()),
    {
        let ghost m = self.model();
        let mut i: usize = 0;
        while i < self.rows.len()
            invariant
                m.sound(),
                self.model().rows.len() == m.rows.len(),
                i <= self.rows@.len(),
                self.model() == (SessionsModel { rows: self.model().rows, ..m }),
                forall|j: int|
                    0 <= j < i ==> (#[trigger] self.model().rows[j]) == m.reset().rows[j],
                forall|j: int| i <= j < m.rows.len() ==> (#[trigger] self.model().rows[j]) == m.rows[j],
            decreases self.rows@.len() - i,
        {
            let ghost before = self.model();
            proof {
                assert(before.rows[i as int] == m.rows[i as int]);
            }
            if let Some(row) = &mut self.rows[i] {
                let bound = match &row.bound {
                    Bound::Session(_) => true,
                    _ => false,
                };
                if bound {
                    row.bound = Bound::Ended;
                }
                row.abandon();
            }
            proof {
                assert(self.model().rows[i as int] == m.reset().rows[i as int]);
                assert forall|j: int| 0 <= j < m.rows.len() && j != i implies (
                #[trigger] self.model().rows[j]) == before.rows[j] by {}
            }
            i = i + 1;
        }
        proof {
            assert(self.model().rows =~= m.reset().rows);
        }
        match network {
            NetworkHeld::Present { clears } => if clears {
                Ok(NetworkReset::ClearAndErasePrevious)
            } else {
                Err(ResetFailed::Network(Refused::AtTheCeiling))
            },
            NetworkHeld::Other => Ok(NetworkReset::Erase),
        }
    }

    /// The factory reset, once the network was cleared or could not be: only
    /// then is the epoch advanced and verified, and the slots freed under it.
    /// After a failure the epoch may be none at all, which is the failure
    /// closed.
    pub fn reset_clients(
        &mut self,
        network: Result<(), Refused>,
        epoch: Option<Epoch>,
        clients: Result<(), ResetFailed>,
    ) -> (r: Result<(), ResetFailed>)
        requires
            old(self).model().sound(),
        ensures
            network is Err ==> r == Err::<(), ResetFailed>(ResetFailed::Network(network->Err_0))
                && final(self).model() == old(self).model(),
            network is Ok ==> r == clients && final(self).model() == old(self).model().reset_to(
                epoch,
                clients is Ok,
            ),
            final(self).model().sound(),
            old(self).model().keeps_shut(final(self).model()),
    {
        match network {
            Err(why) => {
                return Err(ResetFailed::Network(why));
            },
            Ok(_) => {},
        }
        if clients.is_ok() || epoch != self.keys.epoch {
            self.keys.clients.free_all();
        }
        self.keys.epoch = epoch;
        clients
    }

    /// `Discover` with the row's live challenge; one is asked for if it has
    /// none. No challenge to give is error 18.
    pub fn discover(&self, to: Addressed, now: Tick, facts: &Facts<'_>, dst: &mut [u8]) -> (r: Step)
        ensures
            steps(r, old(dst)@, final(dst)@, self.model().discovers(to, now, *facts)),
    {
        let (secret, epoch) = match self.ready() {
            Some(ready) => ready,
            None => {
                return Step::Said(bare(to, NO_CHALLENGE, dst).with(SessionNote::NoChallenge));
            },
        };
        let live = match self.row(to.conn) {
            Some(row) => match row.challenge {
                Challenge::Live { bytes, minted } => if alive(minted, now) {
                    Some(bytes)
                } else {
                    None
                },
                _ => None,
            },
            None => None,
        };
        match live {
            Some(bytes) => Step::Said(self.discovery(to, secret, epoch, bytes, facts, dst)),
            None => Step::Asks(Ask::Challenge(to)),
        }
    }

    /// The answer to a `Discover`.
    fn discovery(
        &self,
        to: Addressed,
        secret: Secret,
        epoch: Epoch,
        challenge: [u8; 16],
        facts: &Facts<'_>,
        dst: &mut [u8],
    ) -> (r: Reply)
        ensures
            says(
                r,
                old(dst)@,
                final(dst)@,
                discovery_said(self.model(), to, secret@, epoch, challenge, *facts),
            ),
    {
        let written = write_discovery(
            to.conn,
            to.req_id,
            secret.device_id_bytes(),
            facts.model,
            (self.keys.clients.enrolled() > 0, facts.pairing_open),
            challenge,
            epoch,
            dst,
        );
        answered(written)
    }

    /// A `Discover` whose challenge was asked for. The old one is discarded
    /// with the draw: one per row.
    pub fn discover_drawn(
        &mut self,
        to: Addressed,
        drawn: Option<[u8; 16]>,
        now: Tick,
        facts: &Facts<'_>,
        dst: &mut [u8],
    ) -> (r: Reply)
        requires
            old(self).model().sound(),
        ensures
            final(self).model() == old(self).model().discovered(to, drawn, now, *facts).0,
            says(
                r,
                old(dst)@,
                final(dst)@,
                old(self).model().discovered(to, drawn, now, *facts).1,
            ),
            final(self).model().sound(),
            old(self).model().keeps_shut(final(self).model()),
    {
        let (secret, epoch) = match self.ready() {
            Some(ready) => ready,
            None => {
                return bare(to, NO_CHALLENGE, dst).with(SessionNote::NoChallenge);
            },
        };
        let bytes = match drawn {
            Some(bytes) => bytes,
            None => {
                return bare(to, NO_CHALLENGE, dst).with(SessionNote::EntropyUnavailable);
            },
        };
        if let Some(row) = self.row_mut(to.conn) {
            row.challenge = Challenge::Live { bytes, minted: now };
        }
        self.discovery(to, secret, epoch, bytes, facts, dst)
    }

    /// The challenge presented: spent whatever it turns out to be, and the
    /// handshake the row held abandoned where it was live.
    fn present(&mut self, to: Addressed, now: Tick) -> (r: Option<[u8; 16]>)
        ensures
            (final(self).model(), r) == old(self).model().presents(to, now),
            old(self).model().sound() ==> final(self).model().sound(),
            old(self).model().keeps_shut(final(self).model()),
    {
        match self.row_mut(to.conn) {
            Some(row) => {
                let taken = row.take_challenge(now);
                if taken.is_some() {
                    row.abandon();
                }
                taken
            },
            None => None,
        }
    }

    /// `Pair`, a pairing's first message: the body and its suite, the
    /// challenge consumed, then the label's tag. A tag that fails is counted.
    /// One that opens into a closed window, or a table with nothing to
    /// allocate, is refused under the label's refusal key, uncounted.
    /// Otherwise a secret is asked for, for the second message.
    pub fn pair(
        &mut self,
        to: Addressed,
        frame: &[u8],
        now: Tick,
        facts: &Facts<'_>,
        dst: &mut [u8],
    ) -> (r: Step)
        requires
            old(self).model().sound(),
        ensures
            final(self).model() == old(self).model().pairs(
                to,
                frame@,
                pair_reads(frame@),
                now,
                *facts,
            ).0,
            steps(
                r,
                old(dst)@,
                final(dst)@,
                old(self).model().pairs(to, frame@, pair_reads(frame@), now, *facts).1,
            ),
            final(self).model().sound(),
            old(self).model().keeps_shut(final(self).model()),
    {
        let read = read_pair(frame);
        self.pair_read(to, frame, read, now, facts, dst)
    }

    /// A pairing's first message, with how it reads.
    pub fn pair_read(
        &mut self,
        to: Addressed,
        frame: &[u8],
        read: Result<(), Fault>,
        now: Tick,
        facts: &Facts<'_>,
        dst: &mut [u8],
    ) -> (r: Step)
        requires
            old(self).model().sound(),
        ensures
            final(self).model() == old(self).model().pairs(to, frame@, read, now, *facts).0,
            steps(
                r,
                old(dst)@,
                final(dst)@,
                old(self).model().pairs(to, frame@, read, now, *facts).1,
            ),
            final(self).model().sound(),
            old(self).model().keeps_shut(final(self).model()),
    {
        if let Err(why) = read {
            return Step::Said(self.pair_refused(to, why, now, dst));
        }
        let challenge = match self.present(to, now) {
            Some(challenge) => challenge,
            None => {
                return Step::Said(bare(to, STALE_CHALLENGE, dst));
            },
        };
        let (secret, epoch) = match self.ready() {
            Some(ready) => ready,
            None => {
                return Step::Said(bare(to, NO_CHALLENGE, dst).with(SessionNote::NoChallenge));
            },
        };
        let prologue = build_prologue(secret.device_id_bytes(), epoch, &challenge, to.conn);
        let opened = open_pair(frame, &prologue, &secret.label());
        self.pair_opened(to, frame, prologue, secret, opened, now, facts, dst)
    }

    /// A pairing's first message, with what it opened into.
    #[verifier::rlimit(40)]
    pub fn pair_opened(
        &mut self,
        to: Addressed,
        frame: &[u8],
        prologue: km43::Prologue,
        secret: Secret,
        opened: Result<(u8, String), Fault>,
        now: Tick,
        facts: &Facts<'_>,
        dst: &mut [u8],
    ) -> (r: Step)
        requires
            old(self).model().sound(),
        ensures
            final(self).model() == old(self).model().pair_opens(
                to,
                frame@,
                prologue_bytes(prologue),
                secret@,
                offer_words(opened),
                now,
                *facts,
            ).0,
            steps(
                r,
                old(dst)@,
                final(dst)@,
                old(self).model().pair_opens(
                    to,
                    frame@,
                    prologue_bytes(prologue),
                    secret@,
                    offer_words(opened),
                    now,
                    *facts,
                ).1,
            ),
            final(self).model().sound(),
            old(self).model().keeps_shut(final(self).model()),
    {
        let (kind, label) = match opened {
            Ok(offer) => offer,
            Err(why) => {
                return Step::Said(self.pair_refused(to, why, now, dst));
            },
        };
        if label.as_str().as_bytes().len() > LABEL_BYTES {
            return Step::Said(bare(to, MALFORMED, dst));
        }
        let refusal = if !facts.pairing_open {
            Some(PairRefusal::WindowClosed)
        } else if self.keys.clients.place(None, label.as_str()) == Place::Full {
            Some(PairRefusal::TableFull)
        } else {
            None
        };
        if let Some(refusal) = refusal {
            let written = refuse_pair(frame, &prologue, &secret.label(), refusal, dst);
            return Step::Said(answered(written));
        }
        Step::Asks(
            Ask::PairSecret(
                PairAsk {
                    to,
                    frame: copy_of(frame),
                    prologue,
                    offer: Offer { kind, label },
                    since: now,
                },
            ),
        )
    }

    /// A pairing's first message, with the secret that was asked for: its
    /// second is queued for the worker.
    pub fn pair_drawn(&mut self, ask: PairAsk, drawn: Option<[u8; 32]>, dst: &mut [u8]) -> (r:
        Reply)
        requires
            old(self).model().sound(),
        ensures
            final(self).model() == old(self).model().pair_draws(
                ask.to,
                ask.frame@,
                prologue_bytes(ask.prologue),
                ask.offer@,
                ask.since,
                drawn,
            ).0,
            says(
                r,
                old(dst)@,
                final(dst)@,
                old(self).model().pair_draws(
                    ask.to,
                    ask.frame@,
                    prologue_bytes(ask.prologue),
                    ask.offer@,
                    ask.since,
                    drawn,
                ).1,
            ),
            final(self).model().sound(),
            old(self).model().keeps_shut(final(self).model()),
    {
        let PairAsk { to, frame, prologue, offer, since } = ask;
        let ephemeral = match drawn {
            Some(ephemeral) => ephemeral,
            None => {
                return bare(to, NO_CHALLENGE, dst).with(SessionNote::EntropyUnavailable);
            },
        };
        if frame.len() > MAX_FRAME {
            return bare(to, TOO_LARGE, dst);
        }
        match self.row_mut(to.conn) {
            None => Reply::nothing(),
            Some(row) => {
                row.pairing = Pairing::Replying { offer, since };
                row.work = Work::Queued(
                    Job {
                        ticket: row.ticket(to.req_id),
                        task: Task::Proceed { frame, prologue, ephemeral },
                    },
                );
                Reply::noted(SessionNote::Queued(to.conn))
            },
        }
    }

    /// `Enrol`, a pairing's third message: queued if the row holds a handshake
    /// waiting for it. On a row that holds none it is error 10, uncounted,
    /// because nothing was computed to refuse it.
    pub fn enrol(&mut self, to: Addressed, frame: &[u8], now: Tick, dst: &mut [u8]) -> (r: Reply)
        requires
            old(self).model().sound(),
        ensures
            final(self).model() == old(self).model().enrols(to, frame@, now).0,
            says(r, old(dst)@, final(dst)@, old(self).model().enrols(to, frame@, now).1),
            final(self).model().sound(),
            old(self).model().keeps_shut(final(self).model()),
    {
        let row = match self.row_mut(to.conn) {
            Some(row) => row,
            None => {
                return Reply::nothing();
            },
        };
        let mut pairing = Pairing::Nothing;
        core::mem::swap(&mut row.pairing, &mut pairing);
        if let Pairing::Awaiting { awaiting, offer, since } = pairing {
            if !outlived(since, now) && frame.len() <= MAX_FRAME {
                row.pairing = Pairing::Enrolling { offer, since };
                row.work = Work::Queued(
                    Job {
                        ticket: row.ticket(to.req_id),
                        task: Task::Enrol { frame: copy_of(frame), awaiting },
                    },
                );
                return Reply::noted(SessionNote::Queued(to.conn));
            }
        }
        row.abandon();
        bare(to, AUTH_FAILED, dst)
    }
}

impl Sessions {
    /// A pairing whose third message opened: the next challenge is drawn
    /// first, because every outcome carries one.
    fn enrolled(&self, ask: EnrolAsk, dst: &mut [u8]) -> (r: Step)
        ensures
            steps(
                r,
                old(dst)@,
                final(dst)@,
                self.model().enrolled(ask.to, ask.enrolling, ask.tag_key, ask.offer@),
            ),
    {
        match self.ready() {
            None => Step::Said(bare(ask.to, NO_CHALLENGE, dst).with(SessionNote::NoChallenge)),
            Some(_) => Step::Asks(Ask::EnrolChallenge(ask)),
        }
    }

    /// The same, with the challenge that was asked for: the window read again,
    /// the slot chosen again with the client's key, and every session on it
    /// ended before it is rewritten, whether or not the write then lands.
    #[verifier::rlimit(40)]
    pub fn enrol_drawn(
        &mut self,
        ask: EnrolAsk,
        drawn: Option<[u8; 16]>,
        now: Tick,
        facts: &Facts<'_>,
        dst: &mut [u8],
    ) -> (r: Step)
        requires
            old(self).model().sound(),
        ensures
            final(self).model() == old(self).model().enrol_draws(
                ask.to,
                ask.enrolling,
                ask.tag_key,
                ask.offer@,
                drawn,
                now,
                *facts,
            ).0,
            steps(
                r,
                old(dst)@,
                final(dst)@,
                old(self).model().enrol_draws(
                    ask.to,
                    ask.enrolling,
                    ask.tag_key,
                    ask.offer@,
                    drawn,
                    now,
                    *facts,
                ).1,
            ),
            final(self).model().sound(),
            old(self).model().keeps_shut(final(self).model()),
    {
        let EnrolAsk { to, enrolling, tag_key, offer } = ask;
        let next_challenge = match drawn {
            Some(bytes) => bytes,
            None => {
                return Step::Said(
                    bare(to, NO_CHALLENGE, dst).with(SessionNote::EntropyUnavailable),
                );
            },
        };
        if let Some(row) = self.row_mut(to.conn) {
            row.challenge = Challenge::Live { bytes: next_challenge, minted: now };
        }
        let client = client_of(&enrolling);
        let place = self.keys.clients.place(Some(&client), offer.label.as_str());
        if !facts.pairing_open {
            let written = answer_enrol(enrolling, Outcome::WindowClosed, next_challenge, dst);
            return Step::Said(answered(written));
        }
        match place.slot() {
            None => {
                let written = answer_enrol(enrolling, Outcome::TableFull, next_challenge, dst);
                Step::Said(answered(written))
            },
            Some((id, role)) => {
                self.unbind(id);
                Step::Asks(
                    Ask::Store(
                        StoreAsk {
                            to,
                            enrolling,
                            next_challenge,
                            place,
                            id,
                            role,
                            client,
                            tag_key,
                            offer,
                        },
                    ),
                )
            },
        }
    }

    /// The same, with the generation the slot landed under, or nothing where
    /// it did not land: outcome 7, and the window left open.
    pub fn enrol_stored(
        &mut self,
        ask: StoreAsk,
        stored: Option<Generation>,
        dst: &mut [u8],
    ) -> (r: Reply)
        requires
            old(self).model().sound(),
        ensures
            final(self).model() == old(self).model().enrol_stores(ask@, stored).0,
            says(r, old(dst)@, final(dst)@, old(self).model().enrol_stores(ask@, stored).1),
            final(self).model().sound(),
            old(self).model().keeps_shut(final(self).model()),
    {
        let StoreAsk {
            to: _,
            enrolling,
            next_challenge,
            place,
            id,
            role,
            client,
            tag_key,
            offer,
        } = ask;
        let generation = match stored {
            Some(generation) => generation,
            None => {
                let written = answer_enrol(enrolling, Outcome::NotStored, next_challenge, dst);
                return answered(written).with(SessionNote::TableNotStored);
            },
        };
        if id.get() >= 1 && id.get() as usize <= SLOTS {
            let Offer { kind, label } = offer;
            self.keys.clients.seat(id, Occupant { client, tag_key, generation, role, kind, label });
        }
        let outcome = match place {
            Place::Free(_, _) => Outcome::Enrolled(id, generation),
            _ => Outcome::Reclaimed(id, generation),
        };
        let written = answer_enrol(enrolling, outcome, next_challenge, dst);
        answered(written).with(SessionNote::Paired(id))
    }

    /// `Hello`, a session's opening: the body and its suite, the challenge
    /// consumed, then the tag against every occupied slot before any key
    /// agreement, which is asked for.
    pub fn hello(&mut self, to: Addressed, frame: &[u8], now: Tick, dst: &mut [u8]) -> (r: Step)
        requires
            old(self).model().sound(),
        ensures
            final(self).model() == old(self).model().hellos(
                to,
                frame@,
                hello_reads(frame@),
                now,
            ).0,
            steps(
                r,
                old(dst)@,
                final(dst)@,
                old(self).model().hellos(to, frame@, hello_reads(frame@), now).1,
            ),
            final(self).model().sound(),
            old(self).model().keeps_shut(final(self).model()),
    {
        let read = read_hello(frame);
        self.hello_read(to, frame, read, now, dst)
    }

    /// A session's opening, with how it reads.
    pub fn hello_read(
        &mut self,
        to: Addressed,
        frame: &[u8],
        read: Result<(), u16>,
        now: Tick,
        dst: &mut [u8],
    ) -> (r: Step)
        requires
            old(self).model().sound(),
        ensures
            final(self).model() == old(self).model().hellos(to, frame@, read, now).0,
            steps(r, old(dst)@, final(dst)@, old(self).model().hellos(to, frame@, read, now).1),
            final(self).model().sound(),
            old(self).model().keeps_shut(final(self).model()),
    {
        if let Err(code) = read {
            return Step::Said(bare(to, code, dst));
        }
        let challenge = match self.present(to, now) {
            Some(challenge) => challenge,
            None => {
                return Step::Said(bare(to, STALE_CHALLENGE, dst));
            },
        };
        let (secret, epoch) = match self.ready() {
            Some(ready) => ready,
            None => {
                return Step::Said(bare(to, UNKNOWN_CLIENT, dst).with(SessionNote::NoChallenge));
            },
        };
        let prologue = build_prologue(secret.device_id_bytes(), epoch, &challenge, to.conn);
        let keys = self.keys.clients.occupied();
        proof {
            lemma_keys_of(keys@, keys_in(self.model().keys.clients, self.model().keys.clients.len()));
        }
        Step::Asks(Ask::Match(MatchAsk { to, frame: copy_of(frame), prologue, keys }))
    }

    /// A session's opening, with the slot its tag is under, or the code of the
    /// refusal and whether it counts: no match is refused, and counted.
    pub fn hello_matched(
        &mut self,
        ask: MatchAsk,
        matched: Result<ClientId, (u16, bool)>,
        now: Tick,
        dst: &mut [u8],
    ) -> (r: Step)
        requires
            old(self).model().sound(),
        ensures
            final(self).model() == old(self).model().hello_matches(
                ask.to,
                ask.frame@,
                prologue_bytes(ask.prologue),
                matched,
                now,
            ).0,
            steps(
                r,
                old(dst)@,
                final(dst)@,
                old(self).model().hello_matches(
                    ask.to,
                    ask.frame@,
                    prologue_bytes(ask.prologue),
                    matched,
                    now,
                ).1,
            ),
            final(self).model().sound(),
            old(self).model().keeps_shut(final(self).model()),
    {
        let MatchAsk { to, frame, prologue, keys: _ } = ask;
        match matched {
            Err((code, counts)) => Step::Said(self.refused(to, code, counts, now, dst)),
            Ok(slot) => if self.keys.clients.occupant(slot).is_none() {
                Step::Said(bare(to, UNKNOWN_CLIENT, dst))
            } else {
                Step::Asks(Ask::HelloSecret(HelloAsk { to, frame, prologue, slot }))
            },
        }
    }

    /// A session's opening, with the secret that was asked for: queued for the
    /// proof and the answer.
    #[verifier::rlimit(40)]
    pub fn hello_drawn(
        &mut self,
        ask: HelloAsk,
        drawn: Option<[u8; 32]>,
        facts: &Facts<'_>,
        dst: &mut [u8],
    ) -> (r: Reply)
        requires
            old(self).model().sound(),
        ensures
            final(self).model() == old(self).model().hello_draws(
                ask.to,
                ask.frame@,
                prologue_bytes(ask.prologue),
                ask.slot,
                drawn,
                *facts,
            ).0,
            says(
                r,
                old(dst)@,
                final(dst)@,
                old(self).model().hello_draws(
                    ask.to,
                    ask.frame@,
                    prologue_bytes(ask.prologue),
                    ask.slot,
                    drawn,
                    *facts,
                ).1,
            ),
            final(self).model().sound(),
            old(self).model().keeps_shut(final(self).model()),
    {
        let HelloAsk { to, frame, prologue, slot } = ask;
        let ephemeral = match drawn {
            Some(ephemeral) => ephemeral,
            None => {
                return bare(to, NO_CHALLENGE, dst).with(SessionNote::EntropyUnavailable);
            },
        };
        if frame.len() > MAX_FRAME {
            return bare(to, TOO_LARGE, dst);
        }
        let (tag_key, enrolled, generation) = match self.keys.clients.occupant(slot) {
            Some(held) => (held.tag_key, held.client, held.generation),
            None => {
                return bare(to, UNKNOWN_CLIENT, dst);
            },
        };
        let report = Report {
            conn: to.conn,
            fw_controller: report_text(facts.fw_controller),
            fw_comms: report_text(facts.fw_comms),
            log: facts.log,
            time_known: facts.time_known,
            client_id: slot,
            generation,
        };
        match self.row_mut(to.conn) {
            None => Reply::nothing(),
            Some(row) => {
                row.work = Work::Queued(
                    Job {
                        ticket: row.ticket(to.req_id),
                        task: Task::Hello { frame, prologue, tag_key, enrolled, ephemeral, report },
                    },
                );
                Reply::noted(SessionNote::Queued(to.conn))
            },
        }
    }

    /// A job came back from the worker. Its answer goes out only if the
    /// handshake it belongs to is still the one its row is in; a slot is
    /// written, and a challenge drawn, before an enrolment's answer says so.
    #[verifier::rlimit(40)]
    pub fn completed(&mut self, done: Done, now: Tick, dst: &mut [u8]) -> (r: Step)
        requires
            old(self).model().sound(),
        ensures
            final(self).model() == old(self).model().completed(done, now).0,
            steps(r, old(dst)@, final(dst)@, old(self).model().completed(done, now).1),
            final(self).model().sound(),
            !(done.result is Bound) ==> old(self).model().keeps_shut(final(self).model()),
    {
        let Done { ticket, result } = done;
        if self.computing == Some(ticket) {
            self.computing = None;
        }
        let current = match self.row(ticket.conn) {
            Some(row) => row.attempt == ticket.attempt && match row.work {
                Work::Computing => true,
                _ => false,
            },
            None => false,
        };
        if !current {
            return Step::Said(Reply::noted(SessionNote::Stale));
        }
        let conn = ticket.conn;
        let to = Addressed { conn, req_id: ticket.req_id };
        if let Some(row) = self.row_mut(conn) {
            row.work = Work::Idle;
        }
        match result {
            Computed::Proceeded { awaiting, answer } => {
                if let Some(row) = self.row_mut(conn) {
                    let mut pairing = Pairing::Nothing;
                    core::mem::swap(&mut row.pairing, &mut pairing);
                    if let Pairing::Replying { offer, since } = pairing {
                        row.pairing = Pairing::Awaiting { awaiting, offer, since };
                        return Step::Said(copied(answer.as_slice(), dst));
                    }
                    row.abandon();
                }
                Step::Said(Reply::noted(SessionNote::Stale))
            },
            Computed::Enrolled { enrolling, tag_key } => {
                let mut pairing = Pairing::Nothing;
                if let Some(row) = self.row_mut(conn) {
                    core::mem::swap(&mut row.pairing, &mut pairing);
                    row.abandon();
                }
                if let Pairing::Enrolling { offer, since: _ } = pairing {
                    self.enrolled(EnrolAsk { to, enrolling, tag_key, offer }, dst)
                } else {
                    Step::Said(Reply::noted(SessionNote::Stale))
                }
            },
            Computed::Bound { channel, answer, client_id, generation } => {
                let still = self.keys.epoch.is_some() && match self.keys.clients.occupant(
                    client_id,
                ) {
                    Some(held) => held.generation == generation,
                    None => false,
                };
                if !still {
                    return Step::Said(bare(to, UNKNOWN_CLIENT, dst));
                }
                let serial = self.bindings.wrapping_add(1);
                self.bindings = serial;
                if let Some(row) = self.row_mut(conn) {
                    row.bound = Bound::Session(
                        Binding { client: client_id, generation, channel, heard: now, serial },
                    );
                }
                Step::Said(copied(answer.as_slice(), dst).with(SessionNote::Bound(conn)))
            },
            Computed::PairFailed(why) => {
                if let Some(row) = self.row_mut(conn) {
                    row.abandon();
                }
                Step::Said(self.unopened(to, why, now, dst))
            },
            Computed::HelloFailed { code, counts } => Step::Said(
                self.refused(to, code, counts, now, dst),
            ),
            Computed::Vouched { answer, serial } => {
                if !self.is_asker(Asker { to, serial }) {
                    return Step::Said(Reply::noted(SessionNote::Stale));
                }
                let body = encode_vouch(&answer);
                let written = self.seal_for(to, VOUCH_RESPONSE, body, dst);
                Step::Said(answered(written))
            },
            Computed::Unwritable => {
                if let Some(row) = self.row_mut(conn) {
                    row.abandon();
                }
                Step::Said(Reply::noted(SessionNote::TooLarge))
            },
        }
    }

    /// Whether the session that asked is the one on its handle now.
    fn is_asker(&self, of: Asker) -> (r: bool)
        ensures
            r == self.model().asks(of),
    {
        match self.row(of.to.conn) {
            Some(row) => match &row.bound {
                Bound::Session(binding) => binding.serial == of.serial,
                _ => false,
            },
            None => false,
        }
    }
}

/// A text of a report: one past the cap is reported as nothing rather than cut
/// inside a character.
fn report_text(text: &str) -> (r: Text<32>)
    ensures
        r@ == report_model(text@),
{
    match Text::<32>::new(text) {
        Ok(text) => text,
        Err(_) => Text::<32>::empty(),
    }
}

impl Sessions {
    /// The recorder's answer to the `Time` it was handed as `ticket`, sealed
    /// for the session that asked. Nothing is written for a ticket that is not
    /// the one waiting, or when that session has ended or been bound again
    /// since: its client is not listening.
    pub fn time_answered(&mut self, ticket: u32, answer: TimeAnswer, dst: &mut [u8]) -> (r: Reply)
        requires
            old(self).model().sound(),
        ensures
            final(self).model() == old(self).model().time_answered(ticket, answer.words()).0,
            says(
                r,
                old(dst)@,
                final(dst)@,
                old(self).model().time_answered(ticket, answer.words()).1,
            ),
            final(self).model().sound(),
            old(self).model().keeps_shut(final(self).model()),
    {
        let asked = match self.time {
            Some(asked) => asked,
            None => {
                return Reply::nothing();
            },
        };
        if asked.ticket != ticket {
            return Reply::nothing();
        }
        self.time = None;
        if !self.is_asker(Asker { to: asked.to, serial: asked.serial }) {
            return Reply::nothing();
        }
        match answer {
            TimeAnswer::Busy => self.sealed_error(asked.to, BUSY, dst),
            TimeAnswer::Ack { outcome, at } => {
                let body = encode_time_ack(outcome, at);
                let written = self.seal_for(asked.to, TIME_RESPONSE, body, dst);
                answered(written)
            },
        }
    }

    /// Who the session on a handle is bound to, and which binding it is.
    fn who(&self, conn: Conn) -> (r: Option<(ClientId, Generation, u32)>)
        ensures
            r == match self.model().session(conn) {
                Some(binding) => Some((binding.client, binding.generation, binding.serial)),
                None => None,
            },
    {
        match self.row(conn) {
            Some(row) => match &row.bound {
                Bound::Session(binding) => Some(
                    (binding.client, binding.generation, binding.serial),
                ),
                _ => None,
            },
            None => None,
        }
    }

    /// `Goodbye` that opened, with how its body reads: answered, and the
    /// session ends. Only one whose body read unbinds: the binding goes and
    /// the keys with it, and the row stays with its transport.
    pub fn goodbye(&mut self, to: Addressed, read: Result<(), u16>, dst: &mut [u8]) -> (r: Reply)
        requires
            old(self).model().sound(),
        ensures
            final(self).model() == old(self).model().goodbye(to, read).0,
            says(r, old(dst)@, final(dst)@, old(self).model().goodbye(to, read).1),
            final(self).model().sound(),
            old(self).model().keeps_shut(final(self).model()),
    {
        if read.is_err() {
            return self.sealed_error(to, MALFORMED, dst);
        }
        let mut body: Vec<u8> = Vec::new();
        body.push(0xa0);
        proof {
            assert(body@ =~= seq![0xa0u8]);
        }
        let written = self.seal_for(to, GOODBYE_RESPONSE, Some(body), dst);
        if let Some(row) = self.row_mut(to.conn) {
            row.bound = Bound::Ended;
        }
        answered(written).with(SessionNote::Unbound(to.conn))
    }

    /// `Time` that opened, with how it reads: handed to the recorder, which
    /// owns the calendar and the floor, with a ticket; the answer comes back
    /// through [`Sessions::time_answered`]. One at a time.
    pub fn time_asked(
        &mut self,
        to: Addressed,
        read: Result<u64, u16>,
        now: Tick,
        dst: &mut [u8],
    ) -> (r: Reply)
        requires
            old(self).model().sound(),
            old(self).model().session(to.conn) is Some,
        ensures
            final(self).model() == old(self).model().time_asked(
                to,
                old(self).model().session(to.conn)->0,
                read,
                now,
            ).0,
            says(
                r,
                old(dst)@,
                final(dst)@,
                old(self).model().time_asked(
                    to,
                    old(self).model().session(to.conn)->0,
                    read,
                    now,
                ).1,
            ),
            final(self).model().sound(),
            old(self).model().keeps_shut(final(self).model()),
    {
        let at: u64 = match read {
            Ok(at) => at,
            Err(code) => {
                return self.refused_under(to, code, dst);
            },
        };
        if self.time.is_some() {
            return self.sealed_error(to, BUSY, dst);
        }
        let (client, generation, serial) = match self.who(to.conn) {
            Some(who) => who,
            None => {
                return Reply::nothing();
            },
        };
        let authorised = allows(self.mask(client, generation), SET_CLOCK);
        let ticket: u32 = self.tickets.wrapping_add(1);
        self.tickets = ticket;
        self.time = Some(AskedTime { ticket, to, serial, asked: now });
        Reply::noted(SessionNote::TimeAsked(TimeAsked { ticket, at, authorised }))
    }

    /// `Vouch` that opened, with how it reads: queued for the worker with the
    /// epoch and the session's slot, since the request names neither. A row
    /// whose one job is taken, by a handshake or by another `Vouch`, is error
    /// 7, and neither is evicted.
    #[verifier::rlimit(40)]
    pub fn vouch(
        &mut self,
        to: Addressed,
        payload: Vec<u8>,
        read: Result<(), u16>,
        dst: &mut [u8],
    ) -> (r: Reply)
        requires
            old(self).model().sound(),
            old(self).model().session(to.conn) is Some,
        ensures
            final(self).model() == old(self).model().vouches(
                to,
                old(self).model().session(to.conn)->0,
                payload@,
                read,
            ).0,
            says(
                r,
                old(dst)@,
                final(dst)@,
                old(self).model().vouches(
                    to,
                    old(self).model().session(to.conn)->0,
                    payload@,
                    read,
                ).1,
            ),
            final(self).model().sound(),
            old(self).model().keeps_shut(final(self).model()),
    {
        if let Err(code) = read {
            return self.refused_under(to, code, dst);
        }
        let free = match self.row(to.conn) {
            Some(row) => match (&row.pairing, &row.work) {
                (Pairing::Nothing, Work::Idle) => true,
                _ => false,
            },
            None => {
                return Reply::nothing();
            },
        };
        if !free {
            return self.sealed_error(to, BUSY, dst);
        }
        let epoch = match self.keys.epoch {
            Some(epoch) => epoch,
            None => {
                return self.sealed_error(to, UNKNOWN_CLIENT, dst);
            },
        };
        let (client, generation, serial) = match self.who(to.conn) {
            Some(who) => who,
            None => {
                return Reply::nothing();
            },
        };
        if let Some(row) = self.row_mut(to.conn) {
            row.work = Work::Queued(
                Job {
                    ticket: row.ticket(to.req_id),
                    task: Task::Vouch {
                        request: payload,
                        epoch,
                        bound: (client, generation),
                        serial,
                    },
                },
            );
        }
        Reply::noted(SessionNote::Queued(to.conn))
    }

    /// A command's acknowledgement, sealed.
    fn acked(&mut self, to: Addressed, ack: CommandAck<'_>, dst: &mut [u8]) -> (r: Reply)
        ensures
            final(self).model() == old(self).model().acked(
                to,
                ack.cmd_id,
                ack.outcome,
                ack.detail@,
            ).0,
            says(
                r,
                old(dst)@,
                final(dst)@,
                old(self).model().acked(to, ack.cmd_id, ack.outcome, ack.detail@).1,
            ),
            old(self).model().sound() ==> final(self).model().sound(),
            old(self).model().keeps_shut(final(self).model()),
    {
        let body = encode_command_ack(ack.cmd_id, ack.outcome, ack.detail);
        let written = self.seal_for(to, COMMAND_RESPONSE, body, dst);
        answered(written)
    }

    /// `Command` that opened, with how its operation reads: the dedup table's
    /// word is asked for, under the client the session was bound to.
    pub fn command(
        &mut self,
        to: Addressed,
        operation: Vec<u8>,
        read: Result<CommandOperation, u16>,
        dst: &mut [u8],
    ) -> (r: Step)
        requires
            old(self).model().sound(),
            old(self).model().session(to.conn) is Some,
        ensures
            final(self).model() == old(self).model().commands(
                to,
                old(self).model().session(to.conn)->0,
                operation@,
                command_words(read),
            ).0,
            steps(
                r,
                old(dst)@,
                final(dst)@,
                old(self).model().commands(
                    to,
                    old(self).model().session(to.conn)->0,
                    operation@,
                    command_words(read),
                ).1,
            ),
            final(self).model().sound(),
            old(self).model().keeps_shut(final(self).model()),
    {
        let (client, _generation, serial) = match self.who(to.conn) {
            Some(who) => who,
            None => {
                return Step::Said(Reply::nothing());
            },
        };
        let header = Header { kind: COMMAND, conn: to.conn, req_id: to.req_id };
        match asked_with(SignedWrite { header, operation }, client, read) {
            Ok(asked) => Step::Asks(
                Ask::Reserve(ReserveAsk { of: Asker { to, serial }, asked }),
            ),
            Err(Admission::Refused(why)) => Step::Said(self.refused_under(to, why.code(), dst)),
            Err(_) => Step::Said(Reply::nothing()),
        }
    }

    /// A command, with the dedup table's word on it. An entry a reset left in
    /// flight is asked to be discarded and run again: no output has authority
    /// yet, so none can already be where the command asked.
    #[verifier::rlimit(40)]
    pub fn command_reserved(
        &mut self,
        ask: ReserveAsk,
        verdict: Result<Verdict, Unchanged>,
        dst: &mut [u8],
    ) -> (r: Step)
        requires
            old(self).model().sound(),
        ensures
            final(self).model() == old(self).model().command_decided(
                ask.of,
                ask.asked.of(),
                ask.asked.operation@,
                verdict,
                false,
            ).0,
            steps(
                r,
                old(dst)@,
                final(dst)@,
                old(self).model().command_decided(
                    ask.of,
                    ask.asked.of(),
                    ask.asked.operation@,
                    verdict,
                    false,
                ).1,
            ),
            final(self).model().sound(),
            old(self).model().keeps_shut(final(self).model()),
    {
        let ReserveAsk { of, asked } = ask;
        if !self.is_asker(of) {
            return Step::Said(Reply::nothing());
        }
        let admission = asked.reserved(verdict);
        match admission {
            Admission::InFlight(retry) => Step::Asks(Ask::Again(AgainAsk { of, retry })),
            admission => self.admitted(of, admission, dst),
        }
    }

    /// A retry in flight, with the table's answer to its being run again. One
    /// settled by another retry in between, and neither running nor recorded
    /// now, goes again.
    #[verifier::rlimit(40)]
    pub fn command_again(
        &mut self,
        ask: AgainAsk,
        answer: Result<Again, Unchanged>,
        dst: &mut [u8],
    ) -> (r: Step)
        requires
            old(self).model().sound(),
        ensures
            final(self).model() == old(self).model().command_decided(
                ask.of,
                ask.retry@.of,
                ask.retry@.operation,
                again_verdict(answer),
                true,
            ).0,
            steps(
                r,
                old(dst)@,
                final(dst)@,
                old(self).model().command_decided(
                    ask.of,
                    ask.retry@.of,
                    ask.retry@.operation,
                    again_verdict(answer),
                    true,
                ).1,
            ),
            final(self).model().sound(),
            old(self).model().keeps_shut(final(self).model()),
    {
        let AgainAsk { of, retry } = ask;
        if !self.is_asker(of) {
            return Step::Said(Reply::nothing());
        }
        let admission = retry.again(answer);
        match admission {
            Admission::InFlight(_) => Step::Said(self.sealed_error(of.to, BUSY, dst)),
            admission => self.admitted(of, admission, dst),
        }
    }

    /// What an admission that is not in flight is answered with.
    fn admitted(&mut self, of: Asker, admission: Admission, dst: &mut [u8]) -> (r: Step)
        requires
            old(self).model().sound(),
            !(admission is InFlight),
        ensures
            final(self).model() == old(self).model().admits(of, admission).0,
            steps(r, old(dst)@, final(dst)@, old(self).model().admits(of, admission).1),
            final(self).model().sound(),
            old(self).model().keeps_shut(final(self).model()),
    {
        match admission {
            Admission::Refused(why) => {
                let reply = self.refused_under(of.to, why.code(), dst);
                Step::Said(
                    if why.raises().is_some() {
                        reply.with(SessionNote::NotKept)
                    } else {
                        reply
                    },
                )
            },
            Admission::Answered(ack) => Step::Said(self.acked(of.to, ack, dst)),
            Admission::Execute(Permit::Command(reservation)) => Step::Asks(
                Ask::Finish(FinishAsk { of, reservation }),
            ),
            Admission::Execute(Permit::Write(_)) => Step::Said(
                self.sealed_error(of.to, UNKNOWN_TYPE, dst),
            ),
            Admission::InFlight(_) => Step::Said(Reply::nothing()),
        }
    }

    /// A command that ran, with whether its entry's discard landed. No kind
    /// has an argument schema yet, so it is rejected and nothing reaches an
    /// output.
    pub fn command_finished(
        &mut self,
        ask: FinishAsk,
        recorded: Result<(), Unchanged>,
        dst: &mut [u8],
    ) -> (r: Reply)
        requires
            old(self).model().sound(),
        ensures
            final(self).model() == old(self).model().command_finished(
                ask.of,
                ask.reservation@,
                recorded,
            ).0,
            says(
                r,
                old(dst)@,
                final(dst)@,
                old(self).model().command_finished(ask.of, ask.reservation@, recorded).1,
            ),
            final(self).model().sound(),
            old(self).model().keeps_shut(final(self).model()),
    {
        let FinishAsk { of, reservation } = ask;
        if !self.is_asker(of) {
            return Reply::nothing();
        }
        let finished = reservation.finished(Executed::Rejected, UNSPECIFIED, recorded);
        let reply = self.acked(of.to, finished.ack, dst);
        if finished.not_recorded.is_some() {
            reply.with(SessionNote::NotKept)
        } else {
            reply
        }
    }

    /// `SetConfig` that opened, with how it reads: the mask, and then the
    /// section is asked to be written, or only its version for a client whose
    /// mask does not reach it.
    pub fn set_config(
        &mut self,
        to: Addressed,
        read: Result<SetConfigOperation, u16>,
        dst: &mut [u8],
    ) -> (r: Step)
        requires
            old(self).model().sound(),
            old(self).model().session(to.conn) is Some,
        ensures
            final(self).model() == old(self).model().sets(
                to,
                old(self).model().session(to.conn)->0,
                set_words(read),
            ).0,
            steps(
                r,
                old(dst)@,
                final(dst)@,
                old(self).model().sets(
                    to,
                    old(self).model().session(to.conn)->0,
                    set_words(read),
                ).1,
            ),
            final(self).model().sound(),
            old(self).model().keeps_shut(final(self).model()),
    {
        let operation = match read {
            Ok(operation) => operation,
            Err(code) => {
                return Step::Said(self.refused_under(to, code, dst));
            },
        };
        let (client, generation, serial) = match self.who(to.conn) {
            Some(who) => who,
            None => {
                return Step::Said(Reply::nothing());
            },
        };
        let of = Asker { to, serial };
        if allows(self.mask(client, generation), required(operation.section)) {
            Step::Asks(Ask::SetSection(SetAsk { of, operation }))
        } else {
            Step::Asks(
                Ask::SectionVersion(VersionAsk { of, section: operation.section }),
            )
        }
    }

    /// A section write, with what it came to: its version and outcome, or the
    /// code it is refused with.
    pub fn section_set(
        &mut self,
        ask: SetAsk,
        written: Result<(u32, SetConfig), u16>,
        dst: &mut [u8],
    ) -> (r: Reply)
        requires
            old(self).model().sound(),
        ensures
            final(self).model() == old(self).model().section_set(
                ask.of,
                ask.operation.section,
                written,
            ).0,
            says(
                r,
                old(dst)@,
                final(dst)@,
                old(self).model().section_set(ask.of, ask.operation.section, written).1,
            ),
            final(self).model().sound(),
            old(self).model().keeps_shut(final(self).model()),
    {
        self.section_acked(ask.of, ask.operation.section, written, dst)
    }

    /// A section write a client's mask does not reach, with the section's
    /// version.
    pub fn section_refused(&mut self, ask: VersionAsk, version: u32, dst: &mut [u8]) -> (r: Reply)
        requires
            old(self).model().sound(),
        ensures
            final(self).model() == old(self).model().section_set(
                ask.of,
                ask.section,
                Ok((version, SetConfig::Unauthorised)),
            ).0,
            says(
                r,
                old(dst)@,
                final(dst)@,
                old(self).model().section_set(
                    ask.of,
                    ask.section,
                    Ok((version, SetConfig::Unauthorised)),
                ).1,
            ),
            final(self).model().sound(),
            old(self).model().keeps_shut(final(self).model()),
    {
        self.section_acked(ask.of, ask.section, Ok((version, SetConfig::Unauthorised)), dst)
    }

    /// A section write's acknowledgement, sealed, or its refusal.
    fn section_acked(
        &mut self,
        of: Asker,
        section: u16,
        written: Result<(u32, SetConfig), u16>,
        dst: &mut [u8],
    ) -> (r: Reply)
        requires
            old(self).model().sound(),
        ensures
            final(self).model() == old(self).model().section_set(of, section, written).0,
            says(
                r,
                old(dst)@,
                final(dst)@,
                old(self).model().section_set(of, section, written).1,
            ),
            final(self).model().sound(),
            old(self).model().keeps_shut(final(self).model()),
    {
        if !self.is_asker(of) {
            return Reply::nothing();
        }
        match written {
            Err(code) => self.sealed_error(of.to, code, dst),
            Ok((version, outcome)) => {
                let body = encode_set_config_ack(section, version, outcome);
                let sealed = self.seal_for(of.to, SET_CONFIG_RESPONSE, body, dst);
                answered(sealed)
            },
        }
    }

    /// `GetConfig` that opened, with how it reads. The network and cloud
    /// sections are private, and a slot that may not read them is refused
    /// before the section is.
    pub fn config_answer(&mut self, to: Addressed, read: Result<u16, u16>, dst: &mut [u8]) -> (r:
        Step)
        requires
            old(self).model().sound(),
            old(self).model().session(to.conn) is Some,
        ensures
            final(self).model() == old(self).model().gets(
                to,
                old(self).model().session(to.conn)->0,
                read,
            ).0,
            steps(
                r,
                old(dst)@,
                final(dst)@,
                old(self).model().gets(to, old(self).model().session(to.conn)->0, read).1,
            ),
            final(self).model().sound(),
            old(self).model().keeps_shut(final(self).model()),
    {
        let section: u16 = match read {
            Ok(section) => section,
            Err(code) => {
                return Step::Said(self.refused_under(to, code, dst));
            },
        };
        let (client, generation, serial) = match self.who(to.conn) {
            Some(who) => who,
            None => {
                return Step::Said(Reply::nothing());
            },
        };
        if private(section) && !allows(self.mask(client, generation), READ_PRIVATE) {
            return Step::Said(self.sealed_error(to, NOT_PERMITTED, dst));
        }
        Step::Asks(Ask::ReadSection(ReadAsk { of: Asker { to, serial }, section }))
    }

    /// A section read, with its body or the code it is refused with.
    pub fn section_read(&mut self, ask: ReadAsk, body: Result<Vec<u8>, u16>, dst: &mut [u8]) -> (r:
        Reply)
        requires
            old(self).model().sound(),
        ensures
            final(self).model() == old(self).model().body_read(
                ask.of,
                GET_CONFIG_RESPONSE,
                body_words(body),
            ).0,
            says(
                r,
                old(dst)@,
                final(dst)@,
                old(self).model().body_read(ask.of, GET_CONFIG_RESPONSE, body_words(body)).1,
            ),
            final(self).model().sound(),
            old(self).model().keeps_shut(final(self).model()),
    {
        self.body_answer(ask.of, GET_CONFIG_RESPONSE, body, dst)
    }

    /// A body read for the session that asked, sealed, or its refusal.
    fn body_answer(
        &mut self,
        of: Asker,
        kind: u8,
        body: Result<Vec<u8>, u16>,
        dst: &mut [u8],
    ) -> (r: Reply)
        requires
            old(self).model().sound(),
        ensures
            final(self).model() == old(self).model().body_read(of, kind, body_words(body)).0,
            says(
                r,
                old(dst)@,
                final(dst)@,
                old(self).model().body_read(of, kind, body_words(body)).1,
            ),
            final(self).model().sound(),
            old(self).model().keeps_shut(final(self).model()),
    {
        if !self.is_asker(of) {
            return Reply::nothing();
        }
        match body {
            Err(code) => self.refused_under(of.to, code, dst),
            Ok(body) => {
                let written = self.seal_for(of.to, kind, Some(body), dst);
                answered(written)
            },
        }
    }

    /// `WifiScan` that opened, with how it reads. The list is private; a
    /// refresh also moves the radio off the network.
    pub fn wifi_answer(
        &mut self,
        to: Addressed,
        read: Result<bool, u16>,
        facts: &Facts<'_>,
        dst: &mut [u8],
    ) -> (r: Step)
        requires
            old(self).model().sound(),
            old(self).model().session(to.conn) is Some,
        ensures
            final(self).model() == old(self).model().scans(
                to,
                old(self).model().session(to.conn)->0,
                read,
                *facts,
            ).0,
            steps(
                r,
                old(dst)@,
                final(dst)@,
                old(self).model().scans(
                    to,
                    old(self).model().session(to.conn)->0,
                    read,
                    *facts,
                ).1,
            ),
            final(self).model().sound(),
            old(self).model().keeps_shut(final(self).model()),
    {
        let refresh = match read {
            Ok(refresh) => refresh,
            Err(code) => {
                return Step::Said(self.refused_under(to, code, dst));
            },
        };
        let (client, generation, serial) = match self.who(to.conn) {
            Some(who) => who,
            None => {
                return Step::Said(Reply::nothing());
            },
        };
        let mask = self.mask(client, generation);
        if !allows(mask, READ_PRIVATE) {
            return Step::Said(self.sealed_error(to, NOT_PERMITTED, dst));
        }
        let refresh = if refresh {
            Some(
                Refresh {
                    authorised: allows(mask, WRITE_NETWORK_AND_CLOUD),
                    provisioned: facts.network_version != 0,
                    agreed: facts.link == Some(Compat::Agreed),
                },
            )
        } else {
            None
        };
        Step::Asks(
            Ask::Wifi(WifiAsk { of: Asker { to, serial }, asked: WifiAsked::Scan(refresh) }),
        )
    }

    /// `WifiStatus` that opened, with how it reads.
    pub fn wifi_status(
        &mut self,
        to: Addressed,
        read: Result<(), u16>,
        facts: &Facts<'_>,
        dst: &mut [u8],
    ) -> (r: Step)
        requires
            old(self).model().sound(),
            old(self).model().session(to.conn) is Some,
        ensures
            final(self).model() == old(self).model().reports(
                to,
                old(self).model().session(to.conn)->0,
                read,
                *facts,
            ).0,
            steps(
                r,
                old(dst)@,
                final(dst)@,
                old(self).model().reports(
                    to,
                    old(self).model().session(to.conn)->0,
                    read,
                    *facts,
                ).1,
            ),
            final(self).model().sound(),
            old(self).model().keeps_shut(final(self).model()),
    {
        if let Err(code) = read {
            return Step::Said(self.refused_under(to, code, dst));
        }
        let (_client, _generation, serial) = match self.who(to.conn) {
            Some(who) => who,
            None => {
                return Step::Said(Reply::nothing());
            },
        };
        Step::Asks(
            Ask::Wifi(
                WifiAsk {
                    of: Asker { to, serial },
                    asked: WifiAsked::Status(facts.network_version),
                },
            ),
        )
    }

    /// The radio read, with the body of the answer or the code it is refused
    /// with.
    pub fn wifi_read(&mut self, ask: WifiAsk, body: Result<Vec<u8>, u16>, dst: &mut [u8]) -> (r:
        Reply)
        requires
            old(self).model().sound(),
        ensures
            final(self).model() == old(self).model().body_read(
                ask.of,
                wifi_response(ask.asked),
                body_words(body),
            ).0,
            says(
                r,
                old(dst)@,
                final(dst)@,
                old(self).model().body_read(
                    ask.of,
                    wifi_response(ask.asked),
                    body_words(body),
                ).1,
            ),
            final(self).model().sound(),
            old(self).model().keeps_shut(final(self).model()),
    {
        let kind = match ask.asked {
            WifiAsked::Scan(_) => WIFI_SCAN_RESPONSE,
            WifiAsked::Status(_) => WIFI_STATUS_RESPONSE,
        };
        self.body_answer(ask.of, kind, body, dst)
    }

    /// Whether a session is bound on the row: none ever bound here is error 4,
    /// one that ended is error 9.
    fn bound_on(&self, to: Addressed, dst: &mut [u8]) -> (r: Result<(), Reply>)
        ensures
            match r {
                Ok(_) => self.model().session(to.conn) is Some && final(dst)@ == old(dst)@,
                Err(reply) => {
                    &&& self.model().session(to.conn) is None
                    &&& says(
                        reply,
                        old(dst)@,
                        final(dst)@,
                        bare_said(
                            to,
                            if self.model().row(to.conn) matches Some(row) && row.bound is Never {
                                HELLO_FIRST
                            } else {
                                EXPIRED
                            },
                        ),
                    )
                },
            },
    {
        match self.row(to.conn) {
            Some(row) => match &row.bound {
                Bound::Session(_) => Ok(()),
                Bound::Never => Err(bare(to, HELLO_FIRST, dst)),
                Bound::Ended => Err(bare(to, EXPIRED, dst)),
            },
            None => Err(bare(to, EXPIRED, dst)),
        }
    }

    /// A sealed request on a session: opened under the session's keys before
    /// anything is read. A tag that fails counts against the connection; a
    /// request the window refuses is dropped, unanswered and uncounted.
    #[verifier::rlimit(40)]
    pub fn sealed(
        &mut self,
        to: Addressed,
        kind: u8,
        frame: &[u8],
        now: Tick,
        facts: &Facts<'_>,
        dst: &mut [u8],
    ) -> (r: Step)
        requires
            old(self).model().sound(),
        ensures
            final(self).model() == old(self).model().seals(to, kind, frame@, now, *facts).0,
            steps(
                r,
                old(dst)@,
                final(dst)@,
                old(self).model().seals(to, kind, frame@, now, *facts).1,
            ),
            old(self).model().session(to.conn) matches Some(binding) && opening(
                binding.channel,
                frame@,
            ) matches Err(why) && why.code is None ==> final(self).model() == old(self).model(),
            old(self).model().session(to.conn) matches Some(binding) ==> (opening(
                binding.channel,
                frame@,
            ) is Ok ==> final(self).model().shut(to.conn, binding.serial, frame@)),
            final(self).model().sound(),
            old(self).model().keeps_shut(final(self).model()),
    {
        if let Err(refused) = self.bound_on(to, dst) {
            return Step::Said(refused);
        }
        let opened = match self.row_mut(to.conn) {
            Some(row) => match &mut row.bound {
                Bound::Session(binding) => open_sealed(&mut binding.channel, frame),
                _ => {
                    return Step::Said(Reply::nothing());
                },
            },
            None => {
                return Step::Said(Reply::nothing());
            },
        };
        self.sealed_opened(to, kind, opened, now, facts, dst)
    }

    /// A sealed request, with what it opened into: only one that opens
    /// refreshes the session.
    #[verifier::rlimit(40)]
    pub fn sealed_opened(
        &mut self,
        to: Addressed,
        kind: u8,
        opened: Result<Vec<u8>, Fault>,
        now: Tick,
        facts: &Facts<'_>,
        dst: &mut [u8],
    ) -> (r: Step)
        requires
            old(self).model().sound(),
        ensures
            final(self).model() == old(self).model().opens(
                to,
                kind,
                opened_words(opened),
                now,
                *facts,
            ).0,
            steps(
                r,
                old(dst)@,
                final(dst)@,
                old(self).model().opens(to, kind, opened_words(opened), now, *facts).1,
            ),
            final(self).model().sound(),
            old(self).model().keeps_shut(final(self).model()),
    {
        if !self.is_bound(to.conn) {
            return Step::Said(Reply::nothing());
        }
        let payload = match opened {
            Ok(payload) => payload,
            Err(why) => {
                return Step::Said(self.unopened(to, why, now, dst));
            },
        };
        if let Some(row) = self.row_mut(to.conn) {
            if let Bound::Session(binding) = &mut row.bound {
                binding.heard = now;
            }
        }
        self.serve(to, kind, payload, now, facts, dst)
    }

    /// A request that opened, on its session.
    #[verifier::rlimit(40)]
    fn serve(
        &mut self,
        to: Addressed,
        kind: u8,
        payload: Vec<u8>,
        now: Tick,
        facts: &Facts<'_>,
        dst: &mut [u8],
    ) -> (r: Step)
        requires
            old(self).model().sound(),
            old(self).model().session(to.conn) is Some,
        ensures
            final(self).model() == old(self).model().serves(
                to,
                old(self).model().session(to.conn)->0,
                kind,
                payload@,
                now,
                *facts,
            ).0,
            steps(
                r,
                old(dst)@,
                final(dst)@,
                old(self).model().serves(
                    to,
                    old(self).model().session(to.conn)->0,
                    kind,
                    payload@,
                    now,
                    *facts,
                ).1,
            ),
            final(self).model().sound(),
            old(self).model().keeps_shut(final(self).model()),
    {
        if kind == GOODBYE {
            let read = read_empty(GOODBYE, payload.as_slice());
            return Step::Said(self.goodbye(to, read, dst));
        }
        if kind == WIFI_SCAN {
            let read = read_scan(payload.as_slice());
            return self.wifi_answer(to, read, facts, dst);
        }
        if kind == WIFI_STATUS {
            let read = read_empty(WIFI_STATUS, payload.as_slice());
            return self.wifi_status(to, read, facts, dst);
        }
        if kind == GET_CONFIG {
            let read = read_get_config(payload.as_slice());
            return self.config_answer(to, read, dst);
        }
        if kind == VOUCH {
            let read = read_vouch(payload.as_slice());
            return Step::Said(self.vouch(to, payload, read, dst));
        }
        if kind == COMMAND || kind == SET_CONFIG || kind == TIME {
            let header = Header { kind, conn: to.conn, req_id: to.req_id };
            let write = match SignedWrite::read(header, payload) {
                Ok(write) => write,
                Err(code) => {
                    return Step::Said(self.refused_under(to, code, dst));
                },
            };
            if kind == COMMAND {
                let read = read_command(write.operation.as_slice());
                return self.command(to, write.operation, read, dst);
            }
            if kind == SET_CONFIG {
                let read = read_set_config(write.operation.as_slice());
                return self.set_config(to, read, dst);
            }
            let read = read_time(write.operation.as_slice());
            return Step::Said(self.time_asked(to, read, now, dst));
        }
        if on_session(kind) {
            Step::Said(self.sealed_error(to, UNKNOWN_TYPE, dst))
        } else {
            Step::Said(self.sealed_error(to, MALFORMED, dst))
        }
    }

    /// A client's frame, relayed by the comms processor with the handle
    /// stamped into it. The answer is written into `dst`. A request that opens
    /// is dropped when it comes again on the same session: it acts once.
    pub fn frame(&mut self, frame: &[u8], now: Tick, facts: &Facts<'_>, dst: &mut [u8]) -> (r: Step)
        requires
            old(self).model().sound(),
        ensures
            final(self).model() == old(self).model().frames(
                frame@,
                scalars_of(frame@),
                kind_of(frame@),
                now,
                *facts,
            ).0,
            steps(
                r,
                old(dst)@,
                final(dst)@,
                old(self).model().frames(
                    frame@,
                    scalars_of(frame@),
                    kind_of(frame@),
                    now,
                    *facts,
                ).1,
            ),
            final(self).model().sound(),
            old(self).model().taken(frame@, scalars_of(frame@), kind_of(frame@), *facts) matches Some((conn, serial))
                ==> final(self).model().shut(conn, serial, frame@),
            old(self).model().keeps_shut(final(self).model()),
    {
        let scalars = read_scalars(frame);
        let kind = read_kind(frame);
        self.frame_read(frame, scalars, kind, now, facts, dst)
    }

    /// A client's frame, with how its envelope reads. A handle the controller
    /// was never told about is what its reboot looks like from outside.
    #[verifier::rlimit(40)]
    pub fn frame_read(
        &mut self,
        frame: &[u8],
        scalars: Option<(u16, u32)>,
        kind: Result<u8, Unread>,
        now: Tick,
        facts: &Facts<'_>,
        dst: &mut [u8],
    ) -> (r: Step)
        requires
            old(self).model().sound(),
        ensures
            final(self).model() == old(self).model().frames(frame@, scalars, kind, now, *facts).0,
            steps(
                r,
                old(dst)@,
                final(dst)@,
                old(self).model().frames(frame@, scalars, kind, now, *facts).1,
            ),
            final(self).model().sound(),
            old(self).model().taken(frame@, scalars, kind, *facts) matches Some((conn, serial))
                ==> final(self).model().shut(conn, serial, frame@),
            old(self).model().keeps_shut(final(self).model()),
    {
        let (handle, req) = match scalars {
            Some(scalars) => scalars,
            None => {
                return Step::Said(unreadable(dst));
            },
        };
        let conn = match Conn::new(handle) {
            Some(conn) => conn,
            None => {
                return Step::Said(Reply::noted(SessionNote::NoHandle));
            },
        };
        let to = Addressed { conn, req_id: ReqId(req) };
        if facts.link.is_none() {
            return Step::Said(bare(to, BEFORE_LINK_UP, dst));
        }
        if self.row(conn).is_none() {
            return Step::Said(bare(to, UNKNOWN_HANDLE, dst));
        }
        match kind {
            Err(Unread::LinkLocal) => Step::Said(bare(to, LINK_TYPE, dst)),
            Err(Unread::Unknown) => Step::Said(bare(to, UNKNOWN_TYPE, dst)),
            Err(Unread::Malformed) => Step::Said(bare(to, MALFORMED, dst)),
            Ok(kind) => if kind == DISCOVER {
                self.discover(to, now, facts, dst)
            } else if kind == PAIR {
                self.pair(to, frame, now, facts, dst)
            } else if kind == ENROL {
                Step::Said(self.enrol(to, frame, now, dst))
            } else if kind == HELLO {
                self.hello(to, frame, now, dst)
            } else if on_session(kind) {
                self.sealed(to, kind, frame, now, facts, dst)
            } else if kind == ERROR {
                Step::Said(Reply::noted(SessionNote::ClientError))
            } else {
                Step::Said(bare(to, MALFORMED, dst))
            },
        }
    }
}

/// The recorder's answer to a client's `Time`.
#[derive(Debug, Clone, Copy, PartialEq, Eq, Structural)]
pub enum TimeAnswer {
    /// Its acknowledgement.
    Ack {
        /// What became of it.
        outcome: TimeOutcome,
        /// The clock.
        at: Option<u64>,
    },
    /// Inside fifteen minutes of the last one accepted, or another change is
    /// still owed to the log: error 7, and nothing executed.
    Busy,
}

impl TimeAnswer {
    /// What it says.
    pub open spec fn words(self) -> Option<(TimeOutcome, Option<u64>)> {
        match self {
            TimeAnswer::Ack { outcome, at } => Some((outcome, at)),
            TimeAnswer::Busy => None,
        }
    }
}

/// Which message a read of the radio is answered with.
pub open spec fn wifi_response(asked: WifiAsked) -> u8 {
    match asked {
        WifiAsked::Scan(_) => WIFI_SCAN_RESPONSE,
        WifiAsked::Status(_) => WIFI_STATUS_RESPONSE,
    }
}

/// What a body that may not have been read holds.
pub open spec fn body_words(body: Result<Vec<u8>, u16>) -> Result<Seq<u8>, u16> {
    match body {
        Ok(body) => Ok(body@),
        Err(code) => Err(code),
    }
}

/// What a frame that may not have opened holds.
pub open spec fn opened_words(opened: Result<Vec<u8>, Fault>) -> Result<Seq<u8>, Fault> {
    match opened {
        Ok(body) => Ok(body@),
        Err(why) => Err(why),
    }
}

/// What a command that may not have read says.
pub open spec fn command_words(read: Result<CommandOperation, u16>) -> Result<CommandModel, u16> {
    match read {
        Ok(command) => Ok(command@),
        Err(code) => Err(code),
    }
}

/// What a section write that may not have read says.
pub open spec fn set_words(read: Result<SetConfigOperation, u16>) -> Result<
    (u16, u32, Seq<u8>),
    u16,
> {
    match read {
        Ok(write) => Ok((write.section, write.expected_version, write.body@)),
        Err(code) => Err(code),
    }
}

/// Whether a section is the network's or the cloud's.
fn private(section: u16) -> (r: bool)
    ensures
        r == spec_private(section),
{
    section == NETWORK_SECTION || section == CLOUD_SECTION
}

/// What writing a section requires of a mask.
fn required(section: u16) -> (r: u16)
    ensures
        r == spec_required(section),
{
    if private(section) {
        3
    } else {
        WRITE_CONFIG
    }
}

/// Whether the mask of a session's enrolment reaches every bit of `required`.
/// A session whose slot was re-keyed has no mask, and is allowed nothing.
fn allows(mask: Option<u16>, required: u16) -> (r: bool)
    ensures
        r == spec_allows(mask, required),
{
    match mask {
        Some(mask) => mask & required == required,
        None => false,
    }
}

/// Whether a message is a request on a session, which arrives sealed.
fn on_session(kind: u8) -> (r: bool)
    ensures
        r == spec_on_session(kind),
{
    kind == 0x03 || (0x05 <= kind && kind <= 0x0a) || (0x0c <= kind && kind <= 0x12) || (0x14
        <= kind && kind <= 0x18)
}

/// What an offer that may not have opened says.
pub open spec fn offer_words(opened: Result<(u8, String), Fault>) -> Result<
    (u8, Seq<char>),
    Fault,
> {
    match opened {
        Ok((kind, label)) => Ok((kind, label@)),
        Err(why) => Err(why),
    }
}

/// What the network section holds when a factory reset begins.
#[derive(Debug, Clone, Copy, PartialEq, Eq, Structural)]
pub enum NetworkHeld {
    /// A section, and whether its version leaves room to clear it.
    Present {
        /// Whether there is room.
        clears: bool,
    },
    /// Nothing that reads. An interrupted erase can read absent with residue
    /// in the other slot.
    Other,
}

/// What a factory reset does to the network section first.
#[derive(Debug, Clone, Copy, PartialEq, Eq, Structural)]
pub enum NetworkReset {
    /// Write the cleared section, then erase the one before it.
    ClearAndErasePrevious,
    /// Erase both.
    Erase,
}

/// Why a factory reset failed.
#[derive(Debug, Clone, Copy, PartialEq, Eq, Structural)]
pub enum ResetFailed {
    /// The network was not cleared.
    Network(Refused),
    /// The epoch did not advance.
    Epoch(Refused),
    /// The slots were not freed.
    Clients(Refused),
}

/// As many free rows as there are rows.
fn free_rows() -> (r: Vec<Option<Row>>)
    ensures
        r@.len() == CONNECTIONS,
        forall|i: int| 0 <= i < CONNECTIONS ==> (#[trigger] r@[i]) is None,
{
    let mut rows: Vec<Option<Row>> = Vec::new();
    while rows.len() < CONNECTIONS
        invariant
            rows@.len() <= CONNECTIONS,
            forall|i: int| 0 <= i < rows@.len() ==> (#[trigger] rows@[i]) is None,
        decreases CONNECTIONS - rows@.len(),
    {
        rows.push(None);
    }
    rows
}

} // verus!
