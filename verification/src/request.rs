//! Signed requests in their order: the write read out of a body that opened,
//! the dedup table, one write to the part, and only then the operation.
//!
//! **The order is the types.** A [`Permit`] is the only thing that carries an
//! operation to a handler, and for a command the only way to one is
//! [`Asked::reserved`] with the table's word that the in-flight entry is on
//! the part. A write that does not land is error 7 and nothing executes.
//!
//! **The client is the session's.** A write carries no client of its own; the
//! entry is keyed by the slot the session was bound to.
//!
//! **A command is remembered only once it has executed or committed to.** A
//! match on the client and the number is answered without executing. An entry
//! a reset left in flight cannot say which side of the execution the reset
//! landed on, and is handed back as [`InFlight`] for the state store to settle.
//!
//! The table's own writes belong to the caller: what it is asked is said here,
//! and what it answers comes back as an argument.

use vstd::prelude::*;

use crate::body::Refused;
use crate::idents::{ClientId, Conn, ReqId};
use crate::session_wire::{
    command_reads, read_command, Command, CommandModel, CommandOperation,
};

verus! {

/// What a retry of a command that executed is told.
pub const DUPLICATE: &'static str = "already executed under this cmd_id";

/// What a retry of a command that ran in shadow is told: nothing was actuated,
/// and `duplicate` would say something was.
pub const SHADOWED: &'static str = "already run in shadow; nothing was actuated";

/// What a number reused for a different command is told.
pub const REUSED: &'static str = "cmd_id reused for a different command";

/// Error 7: retry later.
pub const BUSY_RETRY: u16 = 7;

/// The condition a dedup entry the part would not keep raises.
pub const DEDUP_WRITE_FAILED: u16 = 24;

/// Error 1: the frame does not read.
pub const MALFORMED_FRAME: u16 = 1;

/// Error 5: the payload is too large.
pub const PAYLOAD_TOO_LARGE: u16 = 5;

/// The message numbers of the writes: a section, a command, firmware and the
/// clock.
pub const SET_CONFIG: u8 = 0x07;

/// A command.
pub const COMMAND: u8 = 0x08;

/// A firmware image.
pub const FIRMWARE: u8 = 0x09;

/// The clock.
pub const TIME: u8 = 0x0a;

/// An invitation.
pub const INVITE: u8 = 0x15;

/// An invitation's approval.
pub const APPROVE: u8 = 0x16;

/// A client's removal.
pub const REMOVE: u8 = 0x17;

/// The most bytes an operation takes.
pub const OPERATION_CAP: usize = 960;

/// The three scalars a frame's tag covers.
#[derive(Debug, Clone, Copy, PartialEq, Eq, Structural)]
pub struct Header {
    /// Which message.
    pub kind: u8,
    /// The connection it is about.
    pub conn: Conn,
    /// Echoed by whatever answers it.
    pub req_id: ReqId,
}

/// A write out of a sealed request that opened.
#[derive(Debug, PartialEq, Eq)]
pub struct SignedWrite {
    /// The three scalars the tag covered.
    pub header: Header,
    /// The operation body, exactly as it opened.
    pub operation: Vec<u8>,
}

/// Whether a message is one of the seven that write, in the mathematical sense.
pub open spec fn signs(kind: u8) -> bool {
    ||| kind == SET_CONFIG
    ||| kind == COMMAND
    ||| kind == FIRMWARE
    ||| kind == TIME
    ||| kind == INVITE
    ||| kind == APPROVE
    ||| kind == REMOVE
}

/// Whether a message is one of the seven that write.
fn writes(kind: u8) -> (r: bool)
    ensures
        r == signs(kind),
{
    kind == SET_CONFIG || kind == COMMAND || kind == FIRMWARE || kind == TIME || kind == INVITE
        || kind == APPROVE || kind == REMOVE
}

impl SignedWrite {
    /// The write in a body that opened: one of the seven messages that write,
    /// its operation inside the cap.
    pub fn read(header: Header, inner: Vec<u8>) -> (r: Result<Self, u16>)
        ensures
            match r {
                Ok(write) => {
                    &&& signs(header.kind)
                    &&& inner@.len() <= OPERATION_CAP
                    &&& write.header == header
                    &&& write.operation == inner
                },
                Err(code) => if !signs(header.kind) {
                    code == MALFORMED_FRAME
                } else {
                    inner@.len() > OPERATION_CAP && code == PAYLOAD_TOO_LARGE
                },
            },
    {
        if !writes(header.kind) {
            return Err(MALFORMED_FRAME);
        }
        if inner.len() > OPERATION_CAP {
            return Err(PAYLOAD_TOO_LARGE);
        }
        Ok(SignedWrite { header, operation: inner })
    }
}

/// Why the table stands as it did.
#[derive(Debug, Clone, Copy, PartialEq, Eq, Structural)]
pub enum Unchanged {
    /// There is no table to change.
    NotHeld,
    /// The part refused the write.
    Refused(Refused),
}

/// Where an entry sits in the dedup table.
#[derive(Debug, Clone, Copy, PartialEq, Eq, Structural)]
pub struct Reserved(pub u32);

/// What an entry remembers of a command.
#[derive(Debug, Clone, Copy, PartialEq, Eq, Structural)]
pub enum Recorded {
    /// It executed.
    Accepted,
    /// It ran in shadow.
    Shadowed,
}

/// The table's word on a command.
#[derive(Debug, Clone, Copy, PartialEq, Eq, Structural)]
pub enum Verdict {
    /// Never seen: its in-flight entry is on the part.
    Fresh(Reserved),
    /// Seen and recorded.
    Already(Recorded),
    /// The number was used for a different command.
    ReusedId,
    /// A reset left its entry in flight.
    InFlight(Reserved),
    /// No room.
    Busy,
    /// Still executing under a permit this boot handed out.
    Running,
}

/// What became of an entry a reset left in flight.
#[derive(Debug, Clone, Copy, PartialEq, Eq, Structural)]
pub enum Settling {
    /// Settled now.
    Settled,
    /// Gone already.
    Gone,
    /// Another retry ran it again, and its permit holds it.
    Held,
}

/// Why a signed request was refused. Nothing executed, and nothing was
/// remembered for it.
#[derive(Debug, Clone, Copy, PartialEq, Eq, Structural)]
#[must_use]
pub enum Refusal {
    /// A command whose operation does not read, with the code to answer,
    /// before any entry is reserved.
    Operation(u16),
    /// No room in the dedup table, or in this client's half of it: error 7,
    /// rather than evicting.
    Busy,
    /// The same command is still executing: error 7, so the client retries
    /// once it has run, and no second permit is issued beside the first.
    Running,
    /// The dedup entry did not land: error 7, and the command does not run.
    NotKept(Unchanged),
}

impl Refusal {
    /// The code the refusal is answered with, in the mathematical sense.
    pub open spec fn spec_code(self) -> u16 {
        match self {
            Refusal::Operation(code) => code,
            _ => BUSY_RETRY,
        }
    }

    /// The code the refusal is answered with.
    pub fn code(&self) -> (r: u16)
        ensures
            r == self.spec_code(),
    {
        match self {
            Refusal::Operation(code) => *code,
            Refusal::Busy | Refusal::Running | Refusal::NotKept(_) => BUSY_RETRY,
        }
    }

    /// The condition this refusal raises: an entry the part would not keep is
    /// the controller losing its record of what it ran.
    pub fn raises(&self) -> (r: Option<u16>)
        ensures
            r == if self is NotKept {
                Some(DEDUP_WRITE_FAILED)
            } else {
                None
            },
    {
        match self {
            Refusal::NotKept(_) => Some(DEDUP_WRITE_FAILED),
            Refusal::Operation(_) | Refusal::Busy | Refusal::Running => None,
        }
    }
}

/// The controller's answer to a command.
#[derive(Debug, Clone, Copy, PartialEq, Eq)]
pub struct CommandAck<'d> {
    /// The command's number, echoed.
    pub cmd_id: u32,
    /// What became of it.
    pub outcome: Command,
    /// A sentence for a person.
    pub detail: &'d str,
}

/// What a signed request is to become.
#[derive(Debug)]
#[must_use]
pub enum Admission {
    /// Execute: for a command, its entry is on the part.
    Execute(Permit),
    /// A command the dedup table answered without executing.
    Answered(CommandAck<'static>),
    /// A command whose entry a reset left in flight: the state store decides.
    InFlight(InFlight),
    /// Refused before anything executed.
    Refused(Refusal),
}

/// An operation cleared to run.
#[derive(Debug)]
#[must_use]
pub enum Permit {
    /// A write that is not a command.
    Write(Write),
    /// A command: its in-flight entry landed.
    Command(Reservation),
}

/// A signed write that is not a command, ready for its handler.
#[derive(Debug)]
#[must_use]
pub struct Write(SignedWrite);

impl View for Write {
    type V = SignedWrite;

    closed spec fn view(&self) -> SignedWrite {
        self.0
    }
}

impl Write {
    /// The three scalars the tag covered.
    pub fn header(&self) -> (r: Header)
        ensures
            r == self@.header,
    {
        self.0.header
    }

    /// The operation body, exactly as it opened.
    pub fn operation(&self) -> (r: &[u8])
        ensures
            r@ == self@.operation@,
    {
        self.0.operation.as_slice()
    }
}

/// A command past the lookup.
pub struct Asked {
    /// The three scalars the tag covered.
    pub header: Header,
    /// The client the session was bound to.
    pub client: ClientId,
    /// The command.
    pub command: CommandOperation,
    /// The operation body it was read from, which the table tells commands
    /// apart by.
    pub operation: Vec<u8>,
}

/// A command whose entry is reserved in flight on the part.
///
/// Consumed by [`finished`](Self::finished). While it is held, a retry of the
/// same command is [`Refusal::Running`]. Dropped unfinished, its entry stays
/// held until it expires or the next boot hands it to the state store.
#[derive(Debug)]
#[must_use]
pub struct Reservation {
    header: Header,
    client: ClientId,
    command: CommandOperation,
    seat: Reserved,
}

/// What a reservation holds.
pub struct ReservationModel {
    /// The three scalars the tag covered.
    pub header: Header,
    /// The client whose entry it is.
    pub client: ClientId,
    /// The command to execute.
    pub command: CommandModel,
    /// Where its entry sits.
    pub seat: Reserved,
}

impl View for Reservation {
    type V = ReservationModel;

    closed spec fn view(&self) -> ReservationModel {
        ReservationModel {
            header: self.header,
            client: self.client,
            command: self.command@,
            seat: self.seat,
        }
    }
}

impl Reservation {
    /// The three scalars the tag covered.
    pub fn header(&self) -> (r: Header)
        ensures
            r == self@.header,
    {
        self.header
    }

    /// The command to execute.
    pub fn command(&self) -> (r: &CommandOperation)
        ensures
            r@ == self@.command,
    {
        &self.command
    }

    /// The client whose entry it is.
    pub fn client(&self) -> (r: ClientId)
        ensures
            r == self@.client,
    {
        self.client
    }

    /// Where its entry sits.
    pub fn seat(&self) -> (r: Reserved)
        ensures
            r == self@.seat,
    {
        self.seat
    }

    /// Record what the command did and build its ack. An accepted or shadowed
    /// command completes its entry; any other outcome discards it, because the
    /// client is expected to retry past it and a leftover entry would answer
    /// that retry `duplicate`: [`Executed::recorded`] is what the table is
    /// told.
    ///
    /// The ack is what the command did whether or not the record landed.
    pub fn finished<'d>(
        self,
        executed: Executed,
        detail: &'d str,
        recorded: Result<(), Unchanged>,
    ) -> (r: Finished<'d>)
        ensures
            r.ack.cmd_id == self@.command.cmd_id,
            r.ack.outcome == executed.spec_outcome(),
            r.ack.detail == detail,
            r.not_recorded == match recorded {
                Ok(_) => None,
                Err(why) => Some(why),
            },
    {
        Finished {
            ack: CommandAck { cmd_id: self.command.cmd_id, outcome: executed.outcome(), detail },
            not_recorded: match recorded {
                Ok(_) => None,
                Err(why) => Some(why),
            },
        }
    }
}

/// What a command did, as its handler reports it. `duplicate` is not here: it
/// is the dedup table's answer, never an execution's.
#[derive(Debug, Clone, Copy, PartialEq, Eq, Structural)]
pub enum Executed {
    /// It executed.
    Accepted,
    /// The handler refused it.
    Rejected,
    /// The selector or a lockout forbade it.
    Inhibited,
    /// The client's mask does not reach it.
    Unauthorised,
    /// The behaviour ran and the hardware was not written.
    Shadowed,
    /// It named a topology revision that has moved.
    StaleTopology,
    /// It named something that cannot take it.
    WrongTarget,
}

impl Executed {
    /// What the entry records, in the mathematical sense.
    pub open spec fn spec_recorded(self) -> Option<Recorded> {
        match self {
            Executed::Accepted => Some(Recorded::Accepted),
            Executed::Shadowed => Some(Recorded::Shadowed),
            _ => None,
        }
    }

    /// What the entry records: only an execution, or a commitment to one, is
    /// remembered.
    pub fn recorded(self) -> (r: Option<Recorded>)
        ensures
            r == self.spec_recorded(),
    {
        match self {
            Executed::Accepted => Some(Recorded::Accepted),
            Executed::Shadowed => Some(Recorded::Shadowed),
            Executed::Rejected
            | Executed::Inhibited
            | Executed::Unauthorised
            | Executed::StaleTopology
            | Executed::WrongTarget => None,
        }
    }

    /// What the ack says, in the mathematical sense.
    pub open spec fn spec_outcome(self) -> Command {
        match self {
            Executed::Accepted => Command::Accepted,
            Executed::Rejected => Command::Rejected,
            Executed::Inhibited => Command::Inhibited,
            Executed::Unauthorised => Command::Unauthorised,
            Executed::Shadowed => Command::Shadowed,
            Executed::StaleTopology => Command::StaleTopology,
            Executed::WrongTarget => Command::WrongTarget,
        }
    }

    /// What the ack says.
    pub fn outcome(self) -> (r: Command)
        ensures
            r == self.spec_outcome(),
    {
        match self {
            Executed::Accepted => Command::Accepted,
            Executed::Rejected => Command::Rejected,
            Executed::Inhibited => Command::Inhibited,
            Executed::Unauthorised => Command::Unauthorised,
            Executed::Shadowed => Command::Shadowed,
            Executed::StaleTopology => Command::StaleTopology,
            Executed::WrongTarget => Command::WrongTarget,
        }
    }
}

/// A command answered, and whether the part recorded the answer.
#[derive(Debug, Clone, Copy, PartialEq, Eq)]
#[must_use]
pub struct Finished<'d> {
    /// What to answer.
    pub ack: CommandAck<'d>,
    /// Why the entry's new state did not land, if it did not. The answer
    /// stands, and the entry left in flight is the state store's.
    pub not_recorded: Option<Unchanged>,
}

/// A retry of a command whose entry says only that it was started.
///
/// The entry cannot say whether the reset landed before or after the
/// execution. The state store can: it reads the hardware at boot rather than
/// remembering it. [`already`](Self::already) is its answer when the contact
/// is where the command asked; [`again`](Self::again) when it is not.
#[derive(Debug)]
#[must_use]
pub struct InFlight {
    header: Header,
    client: ClientId,
    command: CommandOperation,
    operation: Vec<u8>,
    seat: Reserved,
}

/// What a retry in flight holds: its reservation, and the operation body it
/// was read from.
pub struct InFlightModel {
    /// The reservation it asks about.
    pub of: ReservationModel,
    /// The operation body.
    pub operation: Seq<u8>,
}

impl View for InFlight {
    type V = InFlightModel;

    closed spec fn view(&self) -> InFlightModel {
        InFlightModel {
            of: ReservationModel {
                header: self.header,
                client: self.client,
                command: self.command@,
                seat: self.seat,
            },
            operation: self.operation@,
        }
    }
}

/// What the table said of an entry a retry asked to be run again.
#[derive(Debug, Clone, Copy, PartialEq, Eq, Structural)]
pub enum Again {
    /// Another retry's permit holds it.
    Held,
    /// Discarded, or gone; and this is its word on the fresh command.
    Verdict(Verdict),
}

impl InFlight {
    /// The command the entry was reserved for, for the state store to judge.
    pub fn command(&self) -> (r: &CommandOperation)
        ensures
            r@ == self@.of.command,
    {
        &self.command
    }

    /// Where its entry sits.
    pub fn seat(&self) -> (r: Reserved)
        ensures
            r == self@.of.seat,
    {
        self.seat
    }

    /// Whose entry it is, and the operation body it is told apart by.
    pub fn asks(&self) -> (r: (ClientId, &[u8]))
        ensures
            r.0 == self@.of.client,
            r.1@ == self@.operation,
    {
        (self.client, self.operation.as_slice())
    }

    /// The hardware is already where the command asked: the entry completes as
    /// accepted and the retry is answered `duplicate`. Nothing executes.
    ///
    /// Another retry handed the same entry may have settled it first. If it
    /// ran the command again, the entry is that permit's, and this retry is
    /// [`Refusal::Running`].
    pub fn already(self, settled: Result<Settling, Unchanged>) -> (r: Result<
        Finished<'static>,
        Refusal,
    >)
        ensures
            settled == Ok::<Settling, Unchanged>(Settling::Held) ==> r == Err::<
                Finished<'static>,
                Refusal,
            >(Refusal::Running),
            settled != Ok::<Settling, Unchanged>(Settling::Held) ==> {
                &&& r matches Ok(finished)
                &&& finished.ack.cmd_id == self@.of.command.cmd_id
                &&& finished.ack.outcome == Command::Duplicate
                &&& finished.ack.detail@ == DUPLICATE@
                &&& finished.not_recorded == match settled {
                    Ok(_) => None,
                    Err(why) => Some(why),
                }
            },
    {
        let not_recorded = match settled {
            Ok(Settling::Held) => {
                return Err(Refusal::Running);
            },
            Ok(_) => None,
            Err(why) => Some(why),
        };
        Ok(
            Finished {
                ack: CommandAck {
                    cmd_id: self.command.cmd_id,
                    outcome: Command::Duplicate,
                    detail: DUPLICATE,
                },
                not_recorded,
            },
        )
    }

    /// The hardware is not where the command asked: the entry is discarded and
    /// the retry runs as a fresh command, a new entry landing in the same one
    /// write as the discard. An entry another retry settled first is left as
    /// that retry left it, and this one is answered from it.
    pub fn again(self, answer: Result<Again, Unchanged>) -> (r: Admission)
        ensures
            admitted(self@.of, self@.operation, again_verdict(answer), r),
    {
        let verdict = match answer {
            Ok(Again::Held) => Ok(Verdict::Running),
            Ok(Again::Verdict(verdict)) => Ok(verdict),
            Err(why) => Err(why),
        };
        let InFlight { header, client, command, operation, seat: _ } = self;
        Asked { header, client, command, operation }.reserved(verdict)
    }
}

/// The table's word behind its answer to a retry.
pub open spec fn again_verdict(answer: Result<Again, Unchanged>) -> Result<Verdict, Unchanged> {
    match answer {
        Ok(Again::Held) => Ok(Verdict::Running),
        Ok(Again::Verdict(verdict)) => Ok(verdict),
        Err(why) => Err(why),
    }
}

/// What the table's word on a command makes of it: whether an admission is the
/// right one for a command of `of`'s header, client and command, read from
/// `operation`.
pub open spec fn admitted(
    of: ReservationModel,
    operation: Seq<u8>,
    verdict: Result<Verdict, Unchanged>,
    r: Admission,
) -> bool {
    match verdict {
        Ok(Verdict::Fresh(seat)) => r matches Admission::Execute(Permit::Command(reservation))
            && reservation@ == (ReservationModel { seat, ..of }),
        Ok(Verdict::Already(Recorded::Accepted)) => r matches Admission::Answered(ack)
            && ack.cmd_id == of.command.cmd_id && ack.outcome == Command::Duplicate && ack.detail@
            == DUPLICATE@,
        Ok(Verdict::Already(Recorded::Shadowed)) => r matches Admission::Answered(ack)
            && ack.cmd_id == of.command.cmd_id && ack.outcome == Command::Shadowed && ack.detail@
            == SHADOWED@,
        Ok(Verdict::ReusedId) => r matches Admission::Answered(ack) && ack.cmd_id
            == of.command.cmd_id && ack.outcome == Command::Rejected && ack.detail@ == REUSED@,
        Ok(Verdict::InFlight(seat)) => r matches Admission::InFlight(retry) && retry@ == (
        InFlightModel { of: ReservationModel { seat, ..of }, operation }),
        Ok(Verdict::Busy) => r == Admission::Refused(Refusal::Busy),
        Ok(Verdict::Running) => r == Admission::Refused(Refusal::Running),
        Err(why) => r == Admission::Refused(Refusal::NotKept(why)),
    }
}

/// The first step for a write that opened on a session bound to `bound`: a
/// command is read, for the dedup table to be asked; the other three writes
/// have nothing to land and are permitted as they are.
pub fn asked(write: SignedWrite, bound: ClientId) -> (r: Result<Asked, Admission>)
    ensures
        asks(write, bound, command_reads(write.operation@), r),
{
    let read = read_command(write.operation.as_slice());
    asked_with(write, bound, read)
}

/// Whether a first step is right for a write, given how its operation read as
/// a command.
pub open spec fn asks(
    write: SignedWrite,
    bound: ClientId,
    read: Result<CommandModel, u16>,
    r: Result<Asked, Admission>,
) -> bool {
    if write.header.kind != COMMAND {
        r matches Err(Admission::Execute(Permit::Write(permitted))) && permitted@ == write
    } else {
        match read {
            Ok(command) => r matches Ok(asked) && asked.header == write.header && asked.client
                == bound && asked.command@ == command && asked.operation == write.operation,
            Err(code) => r == Err::<Asked, Admission>(Admission::Refused(Refusal::Operation(code))),
        }
    }
}

/// The first step, with how the operation read as a command.
pub fn asked_with(
    write: SignedWrite,
    bound: ClientId,
    read: Result<CommandOperation, u16>,
) -> (r: Result<Asked, Admission>)
    ensures
        asks(
            write,
            bound,
            match read {
                Ok(command) => Ok(command@),
                Err(code) => Err(code),
            },
            r,
        ),
{
    if write.header.kind != COMMAND {
        return Err(Admission::Execute(Permit::Write(Write(write))));
    }
    match read {
        Ok(command) => Ok(
            Asked { header: write.header, client: bound, command, operation: write.operation },
        ),
        Err(code) => Err(Admission::Refused(Refusal::Operation(code))),
    }
}

impl Asked {
    /// What the command would reserve, wherever its entry sits.
    pub open spec fn of(self) -> ReservationModel {
        ReservationModel {
            header: self.header,
            client: self.client,
            command: self.command@,
            seat: Reserved(0),
        }
    }

    /// What the table's answer becomes. A permit comes only of an entry that
    /// is on the part.
    pub fn reserved(self, verdict: Result<Verdict, Unchanged>) -> (r: Admission)
        ensures
            admitted(self.of(), self.operation@, verdict, r),
    {
        let Asked { header, client, command, operation } = self;
        let cmd_id: u32 = command.cmd_id;
        match verdict {
            Ok(Verdict::Fresh(seat)) => Admission::Execute(
                Permit::Command(Reservation { header, client, command, seat }),
            ),
            Ok(Verdict::Already(Recorded::Accepted)) => Admission::Answered(
                CommandAck { cmd_id, outcome: Command::Duplicate, detail: DUPLICATE },
            ),
            Ok(Verdict::Already(Recorded::Shadowed)) => Admission::Answered(
                CommandAck { cmd_id, outcome: Command::Shadowed, detail: SHADOWED },
            ),
            Ok(Verdict::ReusedId) => Admission::Answered(
                CommandAck { cmd_id, outcome: Command::Rejected, detail: REUSED },
            ),
            Ok(Verdict::InFlight(seat)) => Admission::InFlight(
                InFlight { header, client, command, operation, seat },
            ),
            Ok(Verdict::Busy) => Admission::Refused(Refusal::Busy),
            Ok(Verdict::Running) => Admission::Refused(Refusal::Running),
            Err(why) => Admission::Refused(Refusal::NotKept(why)),
        }
    }
}

/// A command executes only when its own fresh entry is on the part: no other
/// word of the table, and no failed write, makes a permit.
pub proof fn law_no_entry_no_execution(
    of: ReservationModel,
    operation: Seq<u8>,
    verdict: Result<Verdict, Unchanged>,
    r: Admission,
)
    requires
        admitted(of, operation, verdict, r),
    ensures
        r is Execute <==> (verdict matches Ok(Verdict::Fresh(_))),
        r matches Admission::Execute(permit) ==> permit is Command,
        verdict is Err ==> (r matches Admission::Refused(why) && why.spec_code() == BUSY_RETRY
            && why is NotKept),
{
}

/// A command that executed before is answered and not run; a command still
/// running gets no second permit.
pub proof fn law_a_duplicate_is_answered_not_run(
    of: ReservationModel,
    operation: Seq<u8>,
    verdict: Verdict,
    r: Admission,
)
    requires
        admitted(of, operation, Ok(verdict), r),
    ensures
        verdict is Already ==> r is Answered,
        verdict is ReusedId ==> r is Answered,
        verdict is Running ==> r == Admission::Refused(Refusal::Running),
        r matches Admission::Answered(ack) ==> ack.cmd_id == of.command.cmd_id,
{
}

/// A write that is not a command never reaches the dedup table.
pub proof fn law_only_commands_reach_the_table(
    write: SignedWrite,
    bound: ClientId,
    read: Result<CommandModel, u16>,
    r: Result<Asked, Admission>,
)
    requires
        asks(write, bound, read, r),
    ensures
        r is Ok ==> write.header.kind == COMMAND && read is Ok,
        r matches Err(Admission::Execute(Permit::Write(_))) <==> write.header.kind != COMMAND,
{
}

/// Only an execution, or a commitment to one, is remembered, and no execution
/// is ever answered as a duplicate.
pub proof fn law_only_executions_are_remembered(executed: Executed)
    ensures
        executed.spec_recorded() is Some <==> executed == Executed::Accepted || executed
            == Executed::Shadowed,
        executed.spec_outcome() != Command::Duplicate,
{
}

/// A command is acknowledged as what it did, each report under its own name: no
/// two reports share an outcome, and none but an execution is acknowledged as
/// one.
pub proof fn law_each_report_has_its_own_outcome(a: Executed, b: Executed)
    ensures
        a.spec_outcome() == b.spec_outcome() <==> a == b,
        a.spec_outcome() == Command::Accepted <==> a == Executed::Accepted,
        a.spec_outcome() == Command::Rejected <==> a == Executed::Rejected,
        a.spec_outcome() == Command::Inhibited <==> a == Executed::Inhibited,
        a.spec_outcome() == Command::Unauthorised <==> a == Executed::Unauthorised,
        a.spec_outcome() == Command::Shadowed <==> a == Executed::Shadowed,
        a.spec_outcome() == Command::StaleTopology <==> a == Executed::StaleTopology,
        a.spec_outcome() == Command::WrongTarget <==> a == Executed::WrongTarget,
{
}

/// A retry is told what became of the first run: a duplicate of what executed,
/// shadowed again of what ran in shadow, and nothing is remembered of a refusal
/// for a retry to be told.
pub proof fn law_a_retry_is_told_what_became_of_the_first(
    executed: Executed,
    of: ReservationModel,
    operation: Seq<u8>,
    r: Admission,
)
    requires
        executed.spec_recorded() matches Some(recorded) && admitted(
            of,
            operation,
            Ok(Verdict::Already(recorded)),
            r,
        ),
    ensures
        r matches Admission::Answered(ack) && {
            &&& ack.cmd_id == of.command.cmd_id
            &&& executed.spec_outcome() == Command::Accepted ==> ack.outcome == Command::Duplicate
            &&& executed.spec_outcome() == Command::Shadowed ==> ack.outcome == Command::Shadowed
            &&& executed.spec_outcome() == Command::Accepted || executed.spec_outcome()
                == Command::Shadowed
        },
{
}

/// The table's word decides what a command becomes, one for one: a fresh entry
/// runs it as the client asked it, a number reused is rejected, an entry left
/// in flight goes to the state store with the body it was read from, and no
/// room, a permit outstanding and a write that did not land are three different
/// refusals.
pub proof fn law_the_table_decides(
    of: ReservationModel,
    operation: Seq<u8>,
    verdict: Result<Verdict, Unchanged>,
    r: Admission,
)
    requires
        admitted(of, operation, verdict, r),
    ensures
        verdict matches Ok(Verdict::Fresh(seat)) ==> (r matches Admission::Execute(
            Permit::Command(run),
        ) && run@.seat == seat && run@.header == of.header && run@.client == of.client
            && run@.command == of.command),
        verdict matches Ok(Verdict::ReusedId) ==> (r matches Admission::Answered(ack)
            && ack.outcome == Command::Rejected),
        verdict matches Ok(Verdict::InFlight(seat)) ==> (r matches Admission::InFlight(retry)
            && retry@.of.seat == seat && retry@.of.header == of.header && retry@.of.client
            == of.client && retry@.of.command == of.command && retry@.operation == operation),
        r is Answered <==> (verdict matches Ok(word) && (word is Already || word is ReusedId)),
        r is InFlight <==> (verdict matches Ok(word) && word is InFlight),
        r == Admission::Refused(Refusal::Busy) <==> verdict == Ok::<Verdict, Unchanged>(
            Verdict::Busy,
        ),
        r == Admission::Refused(Refusal::Running) <==> verdict == Ok::<Verdict, Unchanged>(
            Verdict::Running,
        ),
        verdict matches Err(why) ==> r == Admission::Refused(Refusal::NotKept(why)),
        r matches Admission::Refused(refusal) ==> (refusal is NotKept <==> verdict is Err),
{
}

/// A retry of an entry another permit holds is refused as running, and a
/// discard that did not land runs nothing.
pub proof fn law_a_retry_runs_again_only_under_its_own_entry(
    of: ReservationModel,
    operation: Seq<u8>,
    answer: Result<Again, Unchanged>,
    r: Admission,
)
    requires
        admitted(of, operation, again_verdict(answer), r),
    ensures
        r is Execute <==> (answer matches Ok(Again::Verdict(Verdict::Fresh(_)))),
        answer == Ok::<Again, Unchanged>(Again::Held) ==> r == Admission::Refused(Refusal::Running),
        answer matches Err(why) ==> r == Admission::Refused(Refusal::NotKept(why)),
{
}

/// Every refusal but an operation that does not read is the retryable one, and
/// an operation that does not read is answered with the code it was given.
pub proof fn law_a_refusal_is_retryable_or_names_its_operation(refusal: Refusal)
    ensures
        refusal matches Refusal::Operation(code) ==> refusal.spec_code() == code,
        !(refusal is Operation) ==> refusal.spec_code() == 7,
{
}

/// A command that does not read is refused with its code before the table is
/// asked, and one that reads is asked for the session's client with the body it
/// was read from. Every other write is handed on whole.
pub proof fn law_a_write_goes_on_as_it_opened(
    write: SignedWrite,
    bound: ClientId,
    read: Result<CommandModel, u16>,
    r: Result<Asked, Admission>,
)
    requires
        asks(write, bound, read, r),
    ensures
        write.header.kind != 0x08 ==> (r matches Err(Admission::Execute(Permit::Write(handed)))
            && handed@ == write),
        write.header.kind == 0x08 && read is Ok ==> (r matches Ok(asked) && asked.client == bound
            && asked.header == write.header && asked.command@ == read->Ok_0 && asked.operation@
            == write.operation@),
        write.header.kind == 0x08 && read is Err ==> (r matches Err(Admission::Refused(why))
            && why is Operation && why.spec_code() == read->Err_0),
{
}

/// The messages that write are seven: the section, the command, the firmware
/// and the clock, and the invitation, its approval and the removal.
pub proof fn law_seven_messages_write(kind: u8)
    ensures
        signs(kind) <==> 0x07 <= kind <= 0x0a || 0x15 <= kind <= 0x17,
{
}

} // verus!
