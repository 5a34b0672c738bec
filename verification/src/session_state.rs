//! What a connection row holds, the jobs it hands out, and the answers it
//! gives.

use vstd::prelude::*;

use crate::clients::{Clients, SlotModel};
use crate::idents::{ClientId, Conn, Epoch, Generation, LogSeq, ReqId};
use crate::secret::{Secret, SecretModel};
use crate::session_wire::{prologue_bytes, Fault, VouchAnswer};
use crate::text::{Text, TextModel};
use crate::tick::Tick;

verus! {

/// Connection rows: one per session the protocol permits, so a row that exists
/// can always be bound.
pub const CONNECTIONS: usize = 8;

/// A challenge dies this many milliseconds after it was minted.
pub const CHALLENGE_LIFE: u64 = 120_000;

/// A pairing handshake is abandoned this many milliseconds after its first
/// message was read.
pub const PAIRING_LIFE: u64 = 120_000;

/// A session dies this many milliseconds after the last frame that proved
/// itself.
pub const SESSION_IDLE: u64 = 900_000;

/// The milliseconds failures are counted over.
pub const FAILURE_WINDOW: u64 = 60_000;

/// Failures a connection may accumulate inside the window; the one that
/// reaches it sheds the connection.
pub const FAILURES: usize = 8;

/// How many milliseconds a client's `Time` waits for the recorder before it is
/// forgotten: long enough that a slow answer still lands, and short enough
/// that a lost one does not refuse every later one.
pub const TIME_ANSWER_LIMIT: u64 = 60_000;

/// The most bytes a frame takes on its way to the worker.
pub const MAX_FRAME: usize = 1032;

/// The most bytes a client's label takes.
pub const LABEL_BYTES: usize = 32;

/// What a permitted command is told while no kind has an argument schema.
pub const UNSPECIFIED: &'static str = "no command kind has an argument schema yet";

/// Where an answer goes: the handle in `session_id`, the request echoed.
#[derive(Debug, Clone, Copy, PartialEq, Eq, Structural)]
pub struct Addressed {
    /// The connection.
    pub conn: Conn,
    /// The request.
    pub req_id: ReqId,
}

/// What a job's result is brought back with.
#[derive(Debug, Clone, Copy, PartialEq, Eq, Structural)]
pub struct Ticket {
    /// The row it is for.
    pub conn: Conn,
    /// Which of the row's attempts.
    pub attempt: u32,
    /// The request it answers.
    pub req_id: ReqId,
}

/// What the controller keeps for the client protocol, as the boot read it. It
/// moves only once the part has moved.
pub struct Keys {
    /// The device id and the printed secret. None is a unit nobody
    /// manufactured: nothing pairs and no challenge is given.
    pub secret: Option<Secret>,
    /// The controller key's public half. None is a unit with no controller
    /// key, which pairs nobody and lets nobody in.
    pub controller: Option<[u8; 32]>,
    /// No epoch is a boot that could not establish one, and nothing enrols or
    /// binds.
    pub epoch: Option<Epoch>,
    /// The slots enrolled under that epoch.
    pub clients: Clients,
}

/// What the controller keeps, in the mathematical sense.
#[verifier::ext_equal]
pub struct KeysModel {
    /// The device id and the printed secret.
    pub secret: Option<SecretModel>,
    /// Whether there is a controller key.
    pub controller: bool,
    /// The epoch.
    pub epoch: Option<Epoch>,
    /// The slots.
    pub clients: Seq<Option<SlotModel>>,
}

impl View for Keys {
    type V = KeysModel;

    open spec fn view(&self) -> KeysModel {
        KeysModel {
            secret: match self.secret {
                Some(secret) => Some(secret@),
                None => None,
            },
            controller: self.controller is Some,
            epoch: self.epoch,
            clients: self.clients@,
        }
    }
}

/// How the two processors' link stands once its handshake is done.
#[derive(Debug, Clone, Copy, PartialEq, Eq, Structural)]
pub enum Compat {
    /// Both speak the same major version.
    Agreed,
    /// They do not.
    Mismatched,
}

/// The oldest and newest sequence the log holds.
#[derive(Debug, Clone, Copy, PartialEq, Eq, Structural)]
pub struct LogSpan {
    /// The oldest.
    pub oldest: LogSeq,
    /// The newest.
    pub newest: LogSeq,
}

/// What a `Discover` or a `Hello` reports that the rows do not hold.
#[derive(Debug, Clone, Copy, PartialEq, Eq)]
pub struct Facts<'a> {
    /// The model a `Discover` names.
    pub model: &'a str,
    /// The controller's firmware.
    pub fw_controller: &'a str,
    /// What the comms processor says of itself, which a client does not
    /// decide on.
    pub fw_comms: &'a str,
    /// What the log holds.
    pub log: LogSpan,
    /// Whether the clock is known.
    pub time_known: bool,
    /// Whether a pairing may enrol: the pairing window, read as this frame is
    /// handled and never cached.
    pub pairing_open: bool,
    /// The version of the network section, 0 where none is held.
    pub network_version: u32,
    /// The link as the handshake left it: `None` before it is done, when a
    /// client frame is refused; up under a major mismatch, a refresh is
    /// refused as the link down.
    pub link: Option<Compat>,
}

/// Why a connection is to be closed.
#[derive(Debug, Clone, Copy, PartialEq, Eq, Structural)]
pub enum CloseReason {
    /// Its session expired.
    SessionExpired,
    /// Too many checks failed on it.
    AuthenticationFailures,
}

/// A connection the comms processor is to close, and why.
#[derive(Debug, Clone, Copy, PartialEq, Eq, Structural)]
pub struct Close {
    /// Which.
    pub conn: Conn,
    /// Why.
    pub reason: CloseReason,
}

/// How the announcement of a transport is answered.
#[derive(Debug, Clone, Copy, PartialEq, Eq, Structural)]
pub enum ClientConnected {
    /// It has a row.
    Accepted,
    /// The handle already has one.
    RefusedHandleInUse,
    /// There is none left.
    RefusedTableFull,
}

/// How the end of a transport is answered.
#[derive(Debug, Clone, Copy, PartialEq, Eq, Structural)]
pub enum ClientDisconnected {
    /// Its row is free.
    Released,
    /// It had none.
    UnknownHandle,
}

/// What a client's `Time` asks the recorder, which owns the calendar, the log
/// the floor comes from, and the record the set is written into.
#[derive(Debug, Clone, Copy, PartialEq, Eq, Structural)]
pub struct TimeAsked {
    /// What the answer is handed back with.
    pub ticket: u32,
    /// The operation's time, milliseconds since the epoch.
    pub at: u64,
    /// Whether the client's mask lets it set the clock; answered
    /// `unauthorised` otherwise, with the clock the controller keeps.
    pub authorised: bool,
}

/// Something for the probe about a client frame, never for the ring.
#[derive(Debug, Clone, Copy, PartialEq, Eq, Structural)]
pub enum SessionNote {
    /// A frame whose four elements did not read, refused with error 1 before
    /// any element was read: no handle to answer on.
    Unreadable,
    /// A client frame carrying handle 0, which the comms processor stamps over
    /// on every frame it relays. Its bug; nothing to answer.
    NoHandle,
    /// Refused with this code.
    Refused(u16),
    /// Key agreement for this connection is queued; the answer goes when it is
    /// done.
    Queued(Conn),
    /// A session was bound on this handle.
    Bound(Conn),
    /// A pairing enrolled or reclaimed this client: the window that allowed it
    /// closes now.
    Paired(ClientId),
    /// A client's `Time`, for the recorder to decide and answer.
    TimeAsked(TimeAsked),
    /// The client said goodbye on this handle.
    Unbound(Conn),
    /// No challenge could be given: the unit is not provisioned, or has no
    /// epoch.
    NoChallenge,
    /// The generator's state did not read back: every `Pair` and `Hello` is
    /// refused, and the entropy condition is raised.
    EntropyUnavailable,
    /// A slot did not land: the window is left open, and the table's condition
    /// is raised.
    TableNotStored,
    /// An error from a client, which is never answered.
    ClientError,
    /// A command's dedup entry did not land, or a command's outcome, whose
    /// entry is left for the state store.
    NotKept,
    /// The answer did not fit the buffer: a bug in a cap.
    TooLarge,
    /// A sealed request dropped unanswered for its number, replayed or below
    /// the window: nothing acted, nothing was counted, and the session was not
    /// refreshed.
    Dropped,
    /// A handshake result for one that was abandoned since.
    Stale,
}

/// What the adapter does with one client frame.
#[derive(Debug, Clone, Copy, PartialEq, Eq, Structural)]
#[must_use]
pub struct Reply {
    /// The answer's envelope, this many bytes at the head of the buffer.
    pub answer: Option<usize>,
    /// A connection to close once the answer is out.
    pub close: Option<Close>,
    /// For the probe.
    pub note: Option<SessionNote>,
}

impl Reply {
    /// Nothing to do.
    pub fn nothing() -> (r: Self)
        ensures
            r == (Reply { answer: None, close: None, note: None }),
    {
        Reply { answer: None, close: None, note: None }
    }

    /// Only something for the probe.
    pub fn noted(note: SessionNote) -> (r: Self)
        ensures
            r == (Reply { answer: None, close: None, note: Some(note) }),
    {
        Reply { answer: None, close: None, note: Some(note) }
    }

    /// The same, with this for the probe.
    pub fn with(self, note: SessionNote) -> (r: Self)
        ensures
            r == (Reply { note: Some(note), ..self }),
    {
        Reply { answer: self.answer, close: self.close, note: Some(note) }
    }
}

/// The challenge a row holds.
#[derive(Debug, Clone, Copy, PartialEq, Eq)]
pub enum Challenge {
    /// Accepted and not minted yet; the next settling or `Discover` mints it.
    Owed,
    /// Live for a while after it was minted.
    Live {
        /// The challenge.
        bytes: [u8; 16],
        /// When.
        minted: Tick,
    },
    /// Consumed or expired: a `Discover` mints another.
    Spent,
}

/// Whether a session is bound on a row, and whether one ever was.
pub enum Bound {
    /// No `Hello` has succeeded here.
    Never,
    /// Running.
    Session(Binding),
    /// One was, and is gone.
    Ended,
}

/// A running session.
pub struct Binding {
    /// The slot that proved.
    pub client: ClientId,
    /// And which enrolment of it.
    pub generation: Generation,
    /// The session's keys, and its window on what it accepted.
    pub channel: km43::ControllerChannel,
    /// The last frame that proved itself.
    pub heard: Tick,
    /// Which binding this is, so an answer that took its time goes to the
    /// session that asked and to no later one on the same handle.
    pub serial: u32,
}

/// What a pairing's first message said, kept until the slot it is written
/// into.
pub struct Offer {
    /// What the client says it is.
    pub kind: u8,
    /// Its label.
    pub label: String,
}

/// What an offer says.
#[verifier::ext_equal]
pub struct OfferModel {
    /// What the client says it is.
    pub kind: u8,
    /// Its label.
    pub label: Seq<char>,
}

impl View for Offer {
    type V = OfferModel;

    open spec fn view(&self) -> OfferModel {
        OfferModel { kind: self.kind, label: self.label@ }
    }
}

/// Where a row's pairing handshake is.
pub enum Pairing {
    /// None held.
    Nothing,
    /// The first message opened; the second is being computed.
    Replying {
        /// What it offered.
        offer: Offer,
        /// When it was read.
        since: Tick,
    },
    /// The second message is sent; the third is awaited.
    Awaiting {
        /// The handshake so far.
        awaiting: km43::EnrolAwaiting,
        /// What was offered.
        offer: Offer,
        /// When the first message was read.
        since: Tick,
    },
    /// The third message arrived and is being computed.
    Enrolling {
        /// What was offered.
        offer: Offer,
        /// When the first message was read.
        since: Tick,
    },
}

/// Where a pairing handshake is, in the mathematical sense.
#[verifier::ext_equal]
pub enum PairingModel {
    /// None held.
    Nothing,
    /// The second message is being computed.
    Replying {
        /// What was offered.
        offer: OfferModel,
        /// When.
        since: Tick,
    },
    /// The third message is awaited.
    Awaiting {
        /// The handshake so far.
        awaiting: km43::EnrolAwaiting,
        /// What was offered.
        offer: OfferModel,
        /// When.
        since: Tick,
    },
    /// The third message is being computed.
    Enrolling {
        /// What was offered.
        offer: OfferModel,
        /// When.
        since: Tick,
    },
}

impl View for Pairing {
    type V = PairingModel;

    open spec fn view(&self) -> PairingModel {
        match self {
            Pairing::Nothing => PairingModel::Nothing,
            Pairing::Replying { offer, since } => PairingModel::Replying {
                offer: offer@,
                since: *since,
            },
            Pairing::Awaiting { awaiting, offer, since } => PairingModel::Awaiting {
                awaiting: *awaiting,
                offer: offer@,
                since: *since,
            },
            Pairing::Enrolling { offer, since } => PairingModel::Enrolling {
                offer: offer@,
                since: *since,
            },
        }
    }
}

impl PairingModel {
    /// When the handshake's first message was read.
    pub open spec fn since(self) -> Option<Tick> {
        match self {
            PairingModel::Nothing => None,
            PairingModel::Replying { since, .. } => Some(since),
            PairingModel::Awaiting { since, .. } => Some(since),
            PairingModel::Enrolling { since, .. } => Some(since),
        }
    }
}

impl Pairing {
    /// When the handshake's first message was read.
    pub fn since(&self) -> (r: Option<Tick>)
        ensures
            r == self@.since(),
    {
        match self {
            Pairing::Nothing => None,
            Pairing::Replying { since, .. } => Some(*since),
            Pairing::Awaiting { since, .. } => Some(*since),
            Pairing::Enrolling { since, .. } => Some(*since),
        }
    }
}

/// What a session's opening is answered with, beside its keys.
pub struct Report {
    /// The connection.
    pub conn: Conn,
    /// The controller's firmware.
    pub fw_controller: Text<32>,
    /// The comms processor's.
    pub fw_comms: Text<32>,
    /// What the log holds.
    pub log: LogSpan,
    /// Whether the clock is known.
    pub time_known: bool,
    /// The slot.
    pub client_id: ClientId,
    /// Its generation.
    pub generation: Generation,
}

/// A report, in the mathematical sense.
#[verifier::ext_equal]
pub struct ReportModel {
    /// The connection.
    pub conn: Conn,
    /// The controller's firmware.
    pub fw_controller: TextModel,
    /// The comms processor's.
    pub fw_comms: TextModel,
    /// What the log holds.
    pub log: LogSpan,
    /// Whether the clock is known.
    pub time_known: bool,
    /// The slot.
    pub client_id: ClientId,
    /// Its generation.
    pub generation: Generation,
}

impl View for Report {
    type V = ReportModel;

    open spec fn view(&self) -> ReportModel {
        ReportModel {
            conn: self.conn,
            fw_controller: self.fw_controller@,
            fw_comms: self.fw_comms@,
            log: self.log,
            time_known: self.time_known,
            client_id: self.client_id,
            generation: self.generation,
        }
    }
}

/// What a worker is to compute.
pub enum Task {
    /// A pairing's second message.
    Proceed {
        /// The first.
        frame: Vec<u8>,
        /// What both ends hash.
        prologue: km43::Prologue,
        /// A fresh secret.
        ephemeral: [u8; 32],
    },
    /// A pairing's third message, opened.
    Enrol {
        /// The message.
        frame: Vec<u8>,
        /// The handshake so far.
        awaiting: km43::EnrolAwaiting,
    },
    /// A session's opening: the proof, and the answer.
    Hello {
        /// The message.
        frame: Vec<u8>,
        /// What both ends hash.
        prologue: km43::Prologue,
        /// The slot's tag key.
        tag_key: [u8; 32],
        /// The slot's client key.
        enrolled: [u8; 32],
        /// A fresh secret.
        ephemeral: [u8; 32],
        /// What the answer says.
        report: Report,
    },
    /// A vouch for the session's slot.
    Vouch {
        /// The request's body.
        request: Vec<u8>,
        /// The epoch.
        epoch: Epoch,
        /// The slot and its generation.
        bound: (ClientId, Generation),
        /// The binding that asked.
        serial: u32,
    },
}

/// A task, in the mathematical sense.
#[verifier::ext_equal]
pub enum TaskModel {
    /// A pairing's second message.
    Proceed {
        /// The first.
        frame: Seq<u8>,
        /// The bytes both ends hash.
        prologue: Seq<u8>,
        /// A fresh secret.
        ephemeral: [u8; 32],
    },
    /// A pairing's third message.
    Enrol {
        /// The message.
        frame: Seq<u8>,
        /// The handshake so far.
        awaiting: km43::EnrolAwaiting,
    },
    /// A session's opening.
    Hello {
        /// The message.
        frame: Seq<u8>,
        /// The bytes both ends hash.
        prologue: Seq<u8>,
        /// The slot's tag key.
        tag_key: Seq<u8>,
        /// The slot's client key.
        enrolled: Seq<u8>,
        /// A fresh secret.
        ephemeral: [u8; 32],
        /// What the answer says.
        report: ReportModel,
    },
    /// A vouch.
    Vouch {
        /// The request's body.
        request: Seq<u8>,
        /// The epoch.
        epoch: Epoch,
        /// The slot and its generation.
        bound: (ClientId, Generation),
        /// The binding that asked.
        serial: u32,
    },
}

impl View for Task {
    type V = TaskModel;

    open spec fn view(&self) -> TaskModel {
        match self {
            Task::Proceed { frame, prologue, ephemeral } => TaskModel::Proceed {
                frame: frame@,
                prologue: prologue_bytes(*prologue),
                ephemeral: *ephemeral,
            },
            Task::Enrol { frame, awaiting } => TaskModel::Enrol {
                frame: frame@,
                awaiting: *awaiting,
            },
            Task::Hello { frame, prologue, tag_key, enrolled, ephemeral, report } => TaskModel::Hello {
                frame: frame@,
                prologue: prologue_bytes(*prologue),
                tag_key: tag_key@,
                enrolled: enrolled@,
                ephemeral: *ephemeral,
                report: report@,
            },
            Task::Vouch { request, epoch, bound, serial } => TaskModel::Vouch {
                request: request@,
                epoch: *epoch,
                bound: *bound,
                serial: *serial,
            },
        }
    }
}

/// A key agreement to compute.
pub struct Job {
    /// What its result is brought back with.
    pub ticket: Ticket,
    /// What to compute.
    pub task: Task,
}

/// A job, in the mathematical sense.
#[verifier::ext_equal]
pub struct JobModel {
    /// What its result is brought back with.
    pub ticket: Ticket,
    /// What to compute.
    pub task: TaskModel,
}

impl View for Job {
    type V = JobModel;

    open spec fn view(&self) -> JobModel {
        JobModel { ticket: self.ticket, task: self.task@ }
    }
}

/// A row's key agreement: waiting its turn, or being computed.
pub enum Work {
    /// None.
    Idle,
    /// Waiting.
    Queued(Job),
    /// Out at the worker.
    Computing,
}

/// A row's key agreement, in the mathematical sense.
#[verifier::ext_equal]
pub enum WorkModel {
    /// None.
    Idle,
    /// Waiting.
    Queued(JobModel),
    /// Out at the worker.
    Computing,
}

impl View for Work {
    type V = WorkModel;

    open spec fn view(&self) -> WorkModel {
        match self {
            Work::Idle => WorkModel::Idle,
            Work::Queued(job) => WorkModel::Queued(job@),
            Work::Computing => WorkModel::Computing,
        }
    }
}

/// What a worker computed.
pub enum Computed {
    /// A pairing's second message.
    Proceeded {
        /// The handshake so far.
        awaiting: km43::EnrolAwaiting,
        /// The message.
        answer: Vec<u8>,
    },
    /// A pairing's third message opened.
    Enrolled {
        /// The handshake, to answer.
        enrolling: km43::Enrolling,
        /// The key the client's opening messages will be tagged under.
        tag_key: [u8; 32],
    },
    /// A session's opening proved.
    Bound {
        /// The session's keys.
        channel: km43::ControllerChannel,
        /// The answer.
        answer: Vec<u8>,
        /// The slot.
        client_id: ClientId,
        /// Its generation.
        generation: Generation,
    },
    /// A pairing message did not open.
    PairFailed(Fault),
    /// A session's opening did not prove.
    HelloFailed {
        /// The code to answer.
        code: u16,
        /// Whether it counts against the connection.
        counts: bool,
    },
    /// A vouch.
    Vouched {
        /// What to answer.
        answer: VouchAnswer,
        /// The binding that asked.
        serial: u32,
    },
    /// The answer did not fit.
    Unwritable,
}

/// A job that came back.
pub struct Done {
    /// What it went out with.
    pub ticket: Ticket,
    /// What became of it.
    pub result: Computed,
}

/// A client's `Time` the recorder is deciding.
#[derive(Debug, Clone, Copy, PartialEq, Eq, Structural)]
pub struct AskedTime {
    /// What the answer comes back with.
    pub ticket: u32,
    /// Where it goes.
    pub to: Addressed,
    /// The binding that asked.
    pub serial: u32,
    /// When.
    pub asked: Tick,
}

/// A connection's row.
pub struct Row {
    /// Its handle.
    pub conn: Conn,
    /// Its challenge.
    pub challenge: Challenge,
    /// Its session.
    pub bound: Bound,
    /// When each failure inside the window happened.
    pub failures: Vec<Tick>,
    /// Its pairing handshake.
    pub pairing: Pairing,
    /// Its key agreement.
    pub work: Work,
    /// Moves on every abandoned handshake, so a result that comes back for one
    /// is recognised and discarded.
    pub attempt: u32,
}

/// A connection's row, in the mathematical sense.
#[verifier::ext_equal]
pub struct RowModel {
    /// Its handle.
    pub conn: Conn,
    /// Its challenge.
    pub challenge: Challenge,
    /// Its session.
    pub bound: Bound,
    /// When each failure inside the window happened.
    pub failures: Seq<Tick>,
    /// Its pairing handshake.
    pub pairing: PairingModel,
    /// Its key agreement.
    pub work: WorkModel,
    /// Which attempt its handshake is.
    pub attempt: u32,
}

impl View for Row {
    type V = RowModel;

    open spec fn view(&self) -> RowModel {
        RowModel {
            conn: self.conn,
            challenge: self.challenge,
            bound: self.bound,
            failures: self.failures@,
            pairing: self.pairing@,
            work: self.work@,
            attempt: self.attempt,
        }
    }
}

/// Whether a client's `Time` handed on at `asked` has waited its limit out by
/// `now`, or the tick gives it no age to trust, in the mathematical sense.
pub open spec fn spec_time_expired(asked: Tick, now: Tick) -> bool {
    match now.spec_since(asked) {
        Some(waited) => waited.0 >= TIME_ANSWER_LIMIT,
        None => true,
    }
}

/// Whether a client's `Time` handed on at `asked` has waited its limit out by
/// `now`, or the tick gives it no age to trust. The session forgets it then,
/// and the recorder must not act on it after: the client that asked is no
/// longer waiting for the answer.
pub fn time_expired(asked: Tick, now: Tick) -> (r: bool)
    ensures
        r == spec_time_expired(asked, now),
{
    match now.since(asked) {
        Some(waited) => waited.as_millis() >= TIME_ANSWER_LIMIT,
        None => true,
    }
}

/// Whether a challenge still lives, in the mathematical sense.
pub open spec fn spec_alive(minted: Tick, now: Tick) -> bool {
    match now.spec_since(minted) {
        Some(age) => age.0 < CHALLENGE_LIFE,
        None => true,
    }
}

/// Whether a challenge minted then still lives now.
pub fn alive(minted: Tick, now: Tick) -> (r: bool)
    ensures
        r == spec_alive(minted, now),
{
    match now.since(minted) {
        Some(age) => age.as_millis() < CHALLENGE_LIFE,
        None => true,
    }
}

/// Whether a pairing handshake is too old, in the mathematical sense.
pub open spec fn spec_outlived(since: Tick, now: Tick) -> bool {
    match now.spec_since(since) {
        Some(age) => age.0 >= PAIRING_LIFE,
        None => true,
    }
}

/// Whether a pairing handshake begun then is too old now.
pub fn outlived(since: Tick, now: Tick) -> (r: bool)
    ensures
        r == spec_outlived(since, now),
{
    match now.since(since) {
        Some(age) => age.as_millis() >= PAIRING_LIFE,
        None => true,
    }
}

/// Whether a session last heard then is idle now.
pub open spec fn spec_idle(heard: Tick, now: Tick) -> bool {
    match now.spec_since(heard) {
        Some(idle) => idle.0 >= SESSION_IDLE,
        None => false,
    }
}

/// Whether a failure has left the window.
pub open spec fn forgotten(at: Tick, now: Tick) -> bool {
    match now.spec_since(at) {
        Some(age) => age.0 >= FAILURE_WINDOW,
        None => false,
    }
}

/// The failures of the first `n` that are still inside the window.
pub open spec fn remembered(failures: Seq<Tick>, now: Tick, n: nat) -> Seq<Tick>
    decreases n,
{
    if n == 0 {
        Seq::empty()
    } else if forgotten(failures[n - 1], now) {
        remembered(failures, now, (n - 1) as nat)
    } else {
        remembered(failures, now, (n - 1) as nat).push(failures[n - 1])
    }
}

/// The live challenge of a row, if it has one.
pub open spec fn live_of(challenge: Challenge, now: Tick) -> Option<[u8; 16]> {
    match challenge {
        Challenge::Live { bytes, minted } if spec_alive(minted, now) => Some(bytes),
        _ => None,
    }
}

impl RowModel {
    /// A row as it is allocated.
    pub open spec fn fresh(conn: Conn) -> Self {
        RowModel {
            conn,
            challenge: Challenge::Owed,
            bound: Bound::Never,
            failures: Seq::empty(),
            pairing: PairingModel::Nothing,
            work: WorkModel::Idle,
            attempt: 0,
        }
    }

    /// The ticket a job of this row goes out with.
    pub open spec fn ticket(self, req_id: ReqId) -> Ticket {
        Ticket { conn: self.conn, attempt: self.attempt, req_id }
    }

    /// The row once its handshake is abandoned.
    pub open spec fn abandoned(self) -> Self {
        RowModel {
            pairing: PairingModel::Nothing,
            work: WorkModel::Idle,
            attempt: if self.attempt == u32::MAX {
                0
            } else {
                (self.attempt + 1) as u32
            },
            ..self
        }
    }

    /// The failures once one more is counted: those outside the window are
    /// forgotten, and no more are kept than the threshold asks for.
    pub open spec fn counting(self, now: Tick) -> Seq<Tick> {
        let kept = remembered(self.failures, now, self.failures.len());
        if kept.len() < FAILURES {
            kept.push(now)
        } else {
            kept
        }
    }

    /// The row once one more failure is counted; the one that reaches the
    /// threshold ends its session and abandons its handshake.
    pub open spec fn failing(self, now: Tick) -> Self {
        let counted = RowModel { failures: self.counting(now), ..self };
        if self.sheds(now) {
            RowModel { bound: Bound::Ended, ..counted.abandoned() }
        } else {
            counted
        }
    }

    /// Whether one more failure reaches the threshold.
    pub open spec fn sheds(self, now: Tick) -> bool {
        self.counting(now).len() >= FAILURES
    }

    /// The row once its challenge is presented: a live one is spent, whatever
    /// its age.
    pub open spec fn presented(self) -> Self {
        RowModel {
            challenge: match self.challenge {
                Challenge::Live { .. } => Challenge::Spent,
                other => other,
            },
            ..self
        }
    }

    /// Whether its session has been silent too long.
    pub open spec fn idle(self, now: Tick) -> bool {
        self.bound matches Bound::Session(binding) && spec_idle(binding.heard, now)
    }

    /// The row after a look at the time: a handshake too old is abandoned and
    /// a session too silent has ended.
    pub open spec fn ticked(self, now: Tick) -> Self {
        let kept = if self.pairing.since() matches Some(since) && spec_outlived(since, now) {
            self.abandoned()
        } else {
            self
        };
        RowModel {
            bound: if self.idle(now) {
                Bound::Ended
            } else {
                self.bound
            },
            ..kept
        }
    }
}

impl Row {
    /// A row as it is allocated.
    pub fn new(conn: Conn) -> (r: Self)
        ensures
            r@ == RowModel::fresh(conn),
    {
        Row {
            conn,
            challenge: Challenge::Owed,
            bound: Bound::Never,
            failures: Vec::new(),
            pairing: Pairing::Nothing,
            work: Work::Idle,
            attempt: 0,
        }
    }

    /// The ticket a job of this row goes out with.
    pub fn ticket(&self, req_id: ReqId) -> (r: Ticket)
        ensures
            r == self@.ticket(req_id),
    {
        Ticket { conn: self.conn, attempt: self.attempt, req_id }
    }

    /// Count a failure at `now`: the ones older than the window are forgotten
    /// first. Whether it reaches the threshold.
    pub fn failed(&mut self, now: Tick) -> (r: bool)
        ensures
            final(self)@ == (RowModel { failures: old(self)@.counting(now), ..old(self)@ }),
            r == old(self)@.sheds(now),
    {
        let mut kept: Vec<Tick> = Vec::new();
        let mut i: usize = 0;
        while i < self.failures.len()
            invariant
                *self == *old(self),
                i <= self.failures@.len(),
                kept@ == remembered(self.failures@, now, i as nat),
            decreases self.failures@.len() - i,
        {
            let at = self.failures[i];
            let gone = match now.since(at) {
                Some(age) => age.as_millis() >= FAILURE_WINDOW,
                None => false,
            };
            if !gone {
                kept.push(at);
            }
            i = i + 1;
        }
        if kept.len() < FAILURES {
            kept.push(now);
        }
        let reached = kept.len() >= FAILURES;
        self.failures = kept;
        reached
    }

    /// Take the live challenge: consumed on presentation, whatever the
    /// handshake turns out to be. None when it is spent, owed or dead.
    pub fn take_challenge(&mut self, now: Tick) -> (r: Option<[u8; 16]>)
        ensures
            final(self)@ == old(self)@.presented(),
            r == live_of(old(self)@.challenge, now),
    {
        match self.challenge {
            Challenge::Live { bytes, minted } => {
                self.challenge = Challenge::Spent;
                if alive(minted, now) {
                    Some(bytes)
                } else {
                    None
                }
            },
            Challenge::Owed => None,
            Challenge::Spent => None,
        }
    }

    /// Look at the time: a handshake too old is abandoned, and a session too
    /// silent ends. Whether one did.
    pub fn tick(&mut self, now: Tick) -> (r: bool)
        ensures
            final(self)@ == old(self)@.ticked(now),
            r == old(self)@.idle(now),
    {
        if let Some(since) = self.pairing.since() {
            if outlived(since, now) {
                self.abandon();
            }
        }
        let idle = match &self.bound {
            Bound::Session(binding) => match now.since(binding.heard) {
                Some(idle) => idle.as_millis() >= SESSION_IDLE,
                None => false,
            },
            _ => false,
        };
        if idle {
            self.bound = Bound::Ended;
        }
        idle
    }

    /// Take the job that waits, if one does: it is being computed from now on.
    pub fn take_job(&mut self) -> (r: Option<Job>)
        ensures
            match r {
                Some(job) => {
                    &&& old(self)@.work == WorkModel::Queued(job@)
                    &&& final(self)@ == (RowModel { work: WorkModel::Computing, ..old(self)@ })
                },
                None => {
                    &&& !(old(self)@.work is Queued)
                    &&& final(self)@ == old(self)@
                },
            },
    {
        match self.work {
            Work::Queued(_) => {},
            _ => {
                return None;
            },
        }
        let mut taken = Work::Computing;
        core::mem::swap(&mut self.work, &mut taken);
        match taken {
            Work::Queued(job) => Some(job),
            _ => None,
        }
    }

    /// Abandon whatever handshake the row holds or is computing: a result that
    /// comes back for it is discarded.
    pub fn abandon(&mut self)
        ensures
            final(self)@ == old(self)@.abandoned(),
    {
        self.attempt = self.attempt.wrapping_add(1);
        self.pairing = Pairing::Nothing;
        self.work = Work::Idle;
    }
}

} // verus!
