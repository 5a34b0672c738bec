//! Signed requests in their order: the dedup table, one write to the part, and
//! only then the operation.

use km43::{CommandKind, Signed};
use o89_core::body::Refused;
use o89_core::idents::{ClientId, Conn, ReqId};
use o89_core::request::{
    asked, asked_with, Again, Admission, CommandAck, Executed, Finished, Header, InFlight, Permit,
    Recorded, Refusal, Reservation, Reserved, Settling, SignedWrite, Unchanged, Verdict,
    BUSY_RETRY, COMMAND, DEDUP_WRITE_FAILED, DUPLICATE, FIRMWARE, INVITE, MALFORMED_FRAME, APPROVE, REMOVE, OPERATION_CAP,
    PAYLOAD_TOO_LARGE, REUSED, SET_CONFIG, SHADOWED, TIME,
};
use o89_core::session_wire::{Command, CommandOperation};

/// The bus writes one record takes: the magic cleared, the sequence,
/// the body, the CRC, the magic.
const RECORD: usize = 5;

/// Entries one client may hold.
const PER_CLIENT: usize = 16;

const HANDLE: u16 = 3;

/// Where an entry stands.
#[derive(Clone, Copy, PartialEq, Eq, Debug)]
enum State {
    InFlight,
    Done(Recorded),
}

#[derive(Clone, PartialEq, Eq, Debug)]
struct Entry {
    client: ClientId,
    cmd_id: u32,
    operation: Vec<u8>,
    state: State,
}

/// A part that holds the dedup table, a supply that can fall, and a power cut
/// that lands before the n-th write from now.
struct Part {
    entries: Vec<Entry>,
    falling: bool,
    writes: usize,
    cut_before: Option<usize>,
}

impl Part {
    /// Write the table whole: five bus writes, or none that counts.
    fn keep(&mut self, entries: &[Entry]) -> Result<(), Unchanged> {
        if self.falling {
            return Err(Unchanged::Refused(Refused::SupplyFalling));
        }
        for _ in 0..RECORD {
            if let Some(left) = self.cut_before {
                if left == 0 {
                    return Err(Unchanged::Refused(Refused::Bus));
                }
                self.cut_before = Some(left - 1);
            }
            self.writes += 1;
        }
        self.entries = entries.to_vec();
        Ok(())
    }
}

/// The table as this boot holds it: the entries, and which are executing under
/// a permit of this boot.
struct Dedups {
    entries: Vec<Entry>,
    held: Vec<(ClientId, u32)>,
}

impl Dedups {
    fn verdict(&self, client: ClientId, cmd_id: u32, operation: &[u8]) -> Verdict {
        for (at, entry) in self.entries.iter().enumerate() {
            if entry.client != client || entry.cmd_id != cmd_id {
                continue;
            }
            if entry.operation != operation {
                return Verdict::ReusedId;
            }
            return match entry.state {
                State::Done(recorded) => Verdict::Already(recorded),
                State::InFlight if self.held.contains(&(client, cmd_id)) => Verdict::Running,
                State::InFlight => Verdict::InFlight(Reserved(at as u32)),
            };
        }
        let theirs = self.entries.iter().filter(|e| e.client == client).count();
        if theirs >= PER_CLIENT {
            return Verdict::Busy;
        }
        Verdict::Fresh(Reserved(self.entries.len() as u32))
    }

    /// The table's word on a command, its fresh entry landed.
    fn ask(
        &mut self,
        part: &mut Part,
        client: ClientId,
        cmd_id: u32,
        operation: &[u8],
    ) -> Result<Verdict, Unchanged> {
        let verdict = self.verdict(client, cmd_id, operation);
        if let Verdict::Fresh(_) = verdict {
            let mut entries = self.entries.clone();
            entries.push(Entry {
                client,
                cmd_id,
                operation: operation.to_vec(),
                state: State::InFlight,
            });
            part.keep(&entries)?;
            self.entries = entries;
            self.held.push((client, cmd_id));
        }
        Ok(verdict)
    }

    /// Complete or discard an entry.
    fn close(
        &mut self,
        part: &mut Part,
        client: ClientId,
        cmd_id: u32,
        recorded: Option<Recorded>,
    ) -> Result<(), Unchanged> {
        self.held.retain(|of| *of != (client, cmd_id));
        let mut entries = self.entries.clone();
        match recorded {
            Some(what) => {
                for entry in &mut entries {
                    if entry.client == client && entry.cmd_id == cmd_id {
                        entry.state = State::Done(what);
                    }
                }
            }
            None => entries.retain(|e| !(e.client == client && e.cmd_id == cmd_id)),
        }
        part.keep(&entries)?;
        self.entries = entries;
        Ok(())
    }
}

fn client(n: u32) -> ClientId {
    ClientId::new(n).expect("a nonzero client")
}

/// The part, and the dedup table on it.
struct Rig {
    part: Part,
    dedups: Dedups,
    bound: ClientId,
    next: u32,
}

/// A write that opened.
struct Frame {
    kind: u8,
    operation: Vec<u8>,
    req_id: u32,
}

impl Rig {
    fn new() -> Self {
        Rig {
            part: Part {
                entries: Vec::new(),
                falling: false,
                writes: 0,
                cut_before: None,
            },
            dedups: Dedups {
                entries: Vec::new(),
                held: Vec::new(),
            },
            bound: client(1),
            next: 1,
        }
    }

    /// A write of `kind` under the client's next number.
    fn seal(&mut self, kind: u8, operation: &[u8]) -> Frame {
        let wire = km43::MessageType::try_from(kind).expect("a message");
        Signed::new(wire, operation).expect("a write may carry it");
        self.next += 1;
        Frame {
            kind,
            operation: operation.to_vec(),
            req_id: self.next,
        }
    }

    fn start(&mut self, cmd_id: u32) -> Frame {
        let op = operation(cmd_id, CommandKind::StartGenerator);
        self.seal(COMMAND, &op)
    }

    fn stop(&mut self, cmd_id: u32) -> Frame {
        let op = operation(cmd_id, CommandKind::StopGenerator);
        self.seal(COMMAND, &op)
    }

    fn take(&mut self, frame: &Frame) -> Admission {
        self.take_as(self.bound, frame)
    }

    fn take_as(&mut self, bound: ClientId, frame: &Frame) -> Admission {
        let header = Header {
            kind: frame.kind,
            conn: Conn::new(HANDLE).expect("a handle"),
            req_id: ReqId(frame.req_id),
        };
        let write = SignedWrite::read(header, frame.operation.clone()).expect("a write");
        match asked(write, bound) {
            Ok(asked) => {
                assert_eq!(asked.client, bound);
                let verdict = self.dedups.ask(
                    &mut self.part,
                    asked.client,
                    asked.command.cmd_id,
                    &asked.operation,
                );
                asked.reserved(verdict)
            }
            Err(admission) => admission,
        }
    }

    fn finish(&mut self, reservation: Reservation, executed: Executed) -> Finished<'static> {
        let recorded = self.dedups.close(
            &mut self.part,
            reservation.client(),
            reservation.command().cmd_id,
            executed.recorded(),
        );
        reservation.finished(executed, "", recorded)
    }

    /// The hardware is where the retry asked.
    fn already(&mut self, retry: InFlight) -> Result<Finished<'static>, Refusal> {
        let (of, _) = retry.asks();
        let cmd_id = retry.command().cmd_id;
        let settled = if self.dedups.held.contains(&(of, cmd_id)) {
            Ok(Settling::Held)
        } else {
            self.dedups
                .close(&mut self.part, of, cmd_id, Some(Recorded::Accepted))
                .map(|()| Settling::Settled)
        };
        retry.already(settled)
    }

    /// The hardware is not where the retry asked.
    fn again(&mut self, retry: InFlight) -> Admission {
        let (of, operation) = retry.asks();
        let operation = operation.to_vec();
        let cmd_id = retry.command().cmd_id;
        let answer = match self.dedups.verdict(of, cmd_id, &operation) {
            Verdict::Running => Ok(Again::Held),
            Verdict::InFlight(_) => self.part.keep(&self.dedups.entries.clone()).map(|()| {
                self.dedups.held.push((of, cmd_id));
                Again::Verdict(Verdict::Fresh(retry.seat()))
            }),
            settled => Ok(Again::Verdict(settled)),
        };
        retry.again(answer)
    }

    /// What the part holds, as the next boot reads it.
    fn reboot(&mut self) {
        self.part.cut_before = None;
        self.part.falling = false;
        self.dedups = Dedups {
            entries: self.part.entries.clone(),
            held: Vec::new(),
        };
    }

    fn live(&self) -> usize {
        self.dedups.entries.len()
    }
}

/// A command's operation body.
fn operation(cmd_id: u32, kind: CommandKind) -> Vec<u8> {
    let mut out = [0; 16];
    let len = km43::CommandOperation {
        cmd_id,
        kind,
        args: &[0xa0],
    }
    .encode(&mut out)
    .expect("fits");
    out[..len].to_vec()
}

fn permitted(admission: Admission) -> Reservation {
    match admission {
        Admission::Execute(Permit::Command(reservation)) => reservation,
        other => panic!("a command permit, not {other:?}"),
    }
}

fn refusal(admission: Admission) -> Refusal {
    match admission {
        Admission::Refused(why) => why,
        other => panic!("a refusal, not {other:?}"),
    }
}

fn answer(admission: Admission) -> CommandAck<'static> {
    match admission {
        Admission::Answered(ack) => ack,
        other => panic!("an answer from the table, not {other:?}"),
    }
}

fn in_flight(admission: Admission) -> InFlight {
    match admission {
        Admission::InFlight(retry) => retry,
        other => panic!("an entry in flight, not {other:?}"),
    }
}

#[test]
fn p_080_a_fresh_command_is_permitted_only_once_the_part_holds_its_entry() {
    let mut rig = Rig::new();
    let frame = rig.start(42);
    let reservation = permitted(rig.take(&frame));
    assert_eq!(reservation.command().cmd_id, 42);
    assert_eq!(
        reservation.command().kind,
        CommandKind::StartGenerator as u16
    );
    assert_eq!(reservation.client(), client(1));
    assert_eq!(reservation.header().kind, COMMAND);
    assert_eq!(reservation.header().req_id, ReqId(2));
    assert_eq!(reservation.seat(), Reserved(0));
    assert_eq!(rig.part.writes, RECORD, "the entry is one record");
    // The next boot finds the entry, in flight.
    let found = Dedups {
        entries: rig.part.entries.clone(),
        held: Vec::new(),
    };
    let op = operation(42, CommandKind::StartGenerator);
    let verdict = found.verdict(client(1), 42, &op);
    assert!(matches!(verdict, Verdict::InFlight(_)));
    let finished = rig.finish(reservation, Executed::Accepted);
    assert_eq!(finished.not_recorded, None);
    assert_eq!(finished.ack.cmd_id, 42);
    assert_eq!(finished.ack.outcome, Command::Accepted);
    assert_eq!(rig.part.writes, 2 * RECORD, "the outcome is its own record");
}

#[test]
fn p_080_a_write_that_is_not_a_command_reaches_its_handler_and_writes_nothing() {
    for kind in [TIME, SET_CONFIG, FIRMWARE] {
        let mut rig = Rig::new();
        let operation = [0xa1, 1, 0];
        let frame = rig.seal(kind, &operation);
        match rig.take(&frame) {
            Admission::Execute(Permit::Write(write)) => {
                assert_eq!(write.header().kind, kind);
                assert_eq!(write.operation(), &operation);
            }
            other => panic!("{kind:?} is a write, not {other:?}"),
        }
        assert_eq!(rig.part.writes, 0, "{kind:?}: nothing to land");
        // Even with the part refusing every write.
        rig.part.falling = true;
        let frame = rig.seal(kind, &operation);
        assert!(matches!(
            rig.take(&frame),
            Admission::Execute(Permit::Write(_))
        ));
    }
}

#[test]
fn p_079_an_entry_the_part_will_not_keep_is_busy_raises_its_concern_and_does_not_execute() {
    let mut rig = Rig::new();
    rig.part.falling = true;
    let frame = rig.start(42);
    let why = refusal(rig.take(&frame));
    assert_eq!(
        why,
        Refusal::NotKept(Unchanged::Refused(Refused::SupplyFalling))
    );
    assert_eq!(why.code(), km43::ErrorCode::BusyRetry as u16);
    assert_eq!(why.raises(), Some(km43::Condition::DEDUP_WRITE_FAILED.0));
    // Nothing was reserved, so the retry is judged as a first attempt.
    assert_eq!(rig.live(), 0);
    // The supply recovers; the retry carries a new number and the same
    // command, and runs.
    rig.part.falling = false;
    let retry = rig.start(42);
    let _ = permitted(rig.take(&retry));
}

/// A power cut before every write the reservation makes: a permit comes
/// back only when the whole record landed, and a boot after any cut
/// finds either no entry, or the entry in flight.
#[test]
fn p_080_a_reservation_cut_at_every_write_is_permitted_only_once_it_landed() {
    for cut in 0..=RECORD {
        let mut rig = Rig::new();
        rig.part.cut_before = Some(cut);
        let frame = rig.start(42);
        let admission = rig.take(&frame);
        let landed = cut >= RECORD;
        match admission {
            Admission::Execute(Permit::Command(_)) => assert!(landed, "cut {cut}"),
            Admission::Refused(Refusal::NotKept(_)) => assert!(!landed, "cut {cut}"),
            other => panic!("cut {cut}: {other:?}"),
        }
        rig.reboot();
        let retry = rig.start(42);
        let admission = rig.take(&retry);
        if landed {
            let _ = in_flight(admission);
        } else {
            let _ = permitted(admission);
        }
    }
}

#[test]
fn p_120_a_retry_with_identical_operation_bytes_is_answered_duplicate_and_not_executed() {
    let mut rig = Rig::new();
    let first = rig.start(42);
    let reservation = permitted(rig.take(&first));
    let _ = rig.finish(reservation, Executed::Accepted);
    let writes = rig.part.writes;
    // The ack was lost; the retry carries a new number and the same
    // operation bytes.
    let retry = rig.start(42);
    let ack = answer(rig.take(&retry));
    assert_eq!(
        ack,
        CommandAck {
            cmd_id: 42,
            outcome: Command::Duplicate,
            detail: DUPLICATE
        }
    );
    assert_eq!(rig.part.writes, writes, "a match moves nothing");
}

#[test]
fn p_120_a_retry_of_a_command_that_ran_in_shadow_is_answered_shadowed() {
    let mut rig = Rig::new();
    let first = rig.start(42);
    let reservation = permitted(rig.take(&first));
    let _ = rig.finish(reservation, Executed::Shadowed);
    let retry = rig.start(42);
    let ack = answer(rig.take(&retry));
    assert_eq!(ack.outcome, Command::Shadowed);
    assert_eq!(ack.detail, SHADOWED);
}

#[test]
fn p_120_a_command_that_did_not_execute_leaves_no_entry_and_its_retry_runs() {
    for executed in [
        Executed::Rejected,
        Executed::Inhibited,
        Executed::Unauthorised,
        Executed::StaleTopology,
        Executed::WrongTarget,
    ] {
        let mut rig = Rig::new();
        let first = rig.start(42);
        let reservation = permitted(rig.take(&first));
        let finished = rig.finish(reservation, executed);
        assert_eq!(finished.not_recorded, None);
        assert_eq!(rig.live(), 0, "{executed:?}");
        let retry = rig.start(42);
        let _ = permitted(rig.take(&retry));
    }
}

#[test]
fn p_124_the_same_cmd_id_with_different_bytes_is_rejected_and_not_executed() {
    let mut rig = Rig::new();
    let first = rig.start(42);
    let reservation = permitted(rig.take(&first));
    let _ = rig.finish(reservation, Executed::Accepted);
    let writes = rig.part.writes;
    let other = rig.stop(42);
    let ack = answer(rig.take(&other));
    assert_eq!(
        ack,
        CommandAck {
            cmd_id: 42,
            outcome: Command::Rejected,
            detail: REUSED
        }
    );
    assert_eq!(rig.part.writes, writes, "nothing reserved, nothing moved");
}

/// Two clients numbering from zero are two commands, and one at its half of
/// the table leaves the other's untouched.
#[test]
fn p_122_a_client_at_its_half_of_the_table_is_busy_and_another_is_not() {
    let mut rig = Rig::new();
    let half = u32::try_from(PER_CLIENT).expect("fits");
    for cmd_id in 0..half {
        let frame = rig.start(cmd_id);
        let reservation = permitted(rig.take(&frame));
        let _ = rig.finish(reservation, Executed::Accepted);
    }
    let writes = rig.part.writes;
    let frame = rig.start(half);
    let why = refusal(rig.take(&frame));
    assert_eq!(why, Refusal::Busy);
    assert_eq!(why.code(), km43::ErrorCode::BusyRetry as u16);
    assert_eq!(why.raises(), None, "a full half is not a failing part");
    assert_eq!(rig.part.writes, writes);
    // Another client's command 0 is not the first client's.
    let frame = rig.start(0);
    let _ = permitted(rig.take_as(client(2), &frame));
}

#[test]
fn p_080_a_command_whose_operation_does_not_read_is_error_1_and_writes_nothing() {
    let mut rig = Rig::new();
    for op in [
        &[0xa0][..],
        &[0xa3, 1, 7, 2, 0x19, 0x80, 0, 3, 0xa0],
        &[0xa3, 1, 7, 2, 0x19, 1, 1, 3, 0x80],
        &[0x07],
    ] {
        let frame = rig.seal(COMMAND, op);
        let why = refusal(rig.take(&frame));
        assert!(matches!(why, Refusal::Operation(_)), "{op:02x?}: {why:?}");
        assert_eq!(why.code(), km43::ErrorCode::MalformedFrame as u16);
    }
    assert_eq!(rig.part.writes, 0);
    assert_eq!(rig.live(), 0);
}

/// A reset between the entry and the outcome: the entry says only that the
/// command started. The retry is handed to the state store, never answered
/// from the entry, and both of its answers are exercised.
#[test]
fn p_121_a_retry_meeting_an_entry_left_in_flight_is_settled_by_the_state_store() {
    for hardware_already_there in [true, false] {
        let mut rig = Rig::new();
        let first = rig.start(42);
        drop(permitted(rig.take(&first)));
        rig.reboot();
        let retry = rig.start(42);
        let retry = in_flight(rig.take(&retry));
        assert_eq!(retry.command().cmd_id, 42);
        if hardware_already_there {
            let finished = rig.already(retry).expect("nothing else settled it");
            assert_eq!(finished.not_recorded, None);
            assert_eq!(finished.ack.outcome, Command::Duplicate);
            // Completed on the part: a third try is the plain duplicate.
            let third = rig.start(42);
            assert_eq!(answer(rig.take(&third)).outcome, Command::Duplicate);
        } else {
            let reservation = permitted(rig.again(retry));
            let finished = rig.finish(reservation, Executed::Accepted);
            assert_eq!(finished.ack.outcome, Command::Accepted);
        }
    }
}

/// The retry that arrives while its command is still executing on this
/// boot. Handed to the state store, it would find the hardware not moved
/// yet and permit the command a second time, beside the first.
#[test]
fn p_080_a_retry_while_its_command_still_executes_is_busy_and_gets_no_second_permit() {
    let mut rig = Rig::new();
    let first = rig.start(42);
    let reservation = permitted(rig.take(&first));
    let writes = rig.part.writes;
    let retry = rig.start(42);
    let why = refusal(rig.take(&retry));
    assert_eq!(why, Refusal::Running);
    assert_eq!(why.code(), km43::ErrorCode::BusyRetry as u16);
    assert_eq!(why.raises(), None);
    assert_eq!(rig.part.writes, writes, "the retry moved nothing");
    // Once the first has run, the next retry is its duplicate.
    let _ = rig.finish(reservation, Executed::Accepted);
    let third = rig.start(42);
    assert_eq!(answer(rig.take(&third)).outcome, Command::Duplicate);
}

/// A reset left an entry in flight and two retries of it arrive before
/// either is settled. Whichever settles second meets the entry the first
/// settled, not the one both were handed.
#[test]
fn p_121_two_retries_of_one_entry_left_in_flight_never_get_two_permits() {
    let mut rig = Rig::new();
    let first = rig.start(42);
    drop(permitted(rig.take(&first)));
    rig.reboot();
    let (a, b, c) = (rig.start(42), rig.start(42), rig.start(42));
    let a = in_flight(rig.take(&a));
    let b = in_flight(rig.take(&b));
    let c = in_flight(rig.take(&c));
    let running = permitted(rig.again(a));
    let writes = rig.part.writes;
    // Told the hardware has not moved either, the second finds the
    // first one's command running.
    match rig.again(b) {
        Admission::Refused(why) => assert_eq!(why, Refusal::Running),
        other => panic!("a second permit beside the first: {other:?}"),
    }
    // Told the hardware is there, the third may not complete it.
    match rig.already(c) {
        Err(why) => assert_eq!(why, Refusal::Running),
        Ok(finished) => panic!("answered while it runs: {finished:?}"),
    }
    assert_eq!(rig.part.writes, writes, "nothing was settled for either");
    let _ = rig.finish(running, Executed::Accepted);
    let last = rig.start(42);
    assert_eq!(answer(rig.take(&last)).outcome, Command::Duplicate);
}

/// The same race settled the other way: the first retry finds the
/// hardware already there, and the second, handed the same entry, is
/// answered from what the first recorded.
#[test]
fn p_121_a_retry_settling_an_entry_another_already_completed_is_its_duplicate() {
    let mut rig = Rig::new();
    let first = rig.start(42);
    drop(permitted(rig.take(&first)));
    rig.reboot();
    let (a, b) = (rig.start(42), rig.start(42));
    let a = in_flight(rig.take(&a));
    let b = in_flight(rig.take(&b));
    let settled = rig.already(a).expect("settled");
    assert_eq!(settled.ack.outcome, Command::Duplicate);
    match rig.again(b) {
        Admission::Answered(ack) => assert_eq!(ack.outcome, Command::Duplicate),
        other => panic!("the completed command ran again: {other:?}"),
    }
}

#[test]
fn p_080_a_step_5_that_does_not_land_still_answers_and_leaves_the_entry_in_flight() {
    let mut rig = Rig::new();
    let first = rig.start(42);
    let reservation = permitted(rig.take(&first));
    rig.part.falling = true;
    let finished = rig.finish(reservation, Executed::Accepted);
    assert_eq!(finished.ack.outcome, Command::Accepted, "it ran");
    assert_eq!(
        finished.not_recorded,
        Some(Unchanged::Refused(Refused::SupplyFalling))
    );
    rig.part.falling = false;
    let retry = rig.start(42);
    let _ = in_flight(rig.take(&retry));
}

#[test]
fn p_079_every_refusal_names_its_code_and_only_an_entry_not_kept_raises() {
    let cases = [
        (Refusal::Operation(MALFORMED_FRAME), MALFORMED_FRAME),
        (Refusal::Busy, BUSY_RETRY),
        (Refusal::Running, BUSY_RETRY),
        (Refusal::NotKept(Unchanged::NotHeld), BUSY_RETRY),
    ];
    for (why, code) in cases {
        assert_eq!(why.code(), code, "{why:?}");
        assert_eq!(
            why.raises(),
            matches!(why, Refusal::NotKept(_)).then_some(DEDUP_WRITE_FAILED),
            "{why:?}"
        );
    }
}

fn header(kind: u8) -> Header {
    Header {
        kind,
        conn: Conn::new(HANDLE).expect("a handle"),
        req_id: ReqId(9),
    }
}

#[test]
fn a_write_is_one_of_seven_messages_and_inside_the_cap() {
    for number in 0..=255u8 {
        let read = SignedWrite::read(header(number), vec![0xa0]);
        let signed = km43::MessageType::try_from(number)
            .is_ok_and(|kind| km43::Signed::new(kind, &[0xa0]).is_ok());
        assert_eq!(read.is_ok(), signed, "{number:#04x}");
    }
    assert!(SignedWrite::read(header(COMMAND), vec![0; OPERATION_CAP]).is_ok());
    assert_eq!(
        SignedWrite::read(header(COMMAND), vec![0; OPERATION_CAP + 1]),
        Err(PAYLOAD_TOO_LARGE)
    );
    assert_eq!(
        SignedWrite::read(header(0x0c), vec![0xa0]),
        Err(MALFORMED_FRAME)
    );
    assert_eq!(OPERATION_CAP, km43::MAX_OPERATION);
    assert_eq!(COMMAND, km43::MessageType::Command as u8);
    assert_eq!(SET_CONFIG, km43::MessageType::SetConfig as u8);
    assert_eq!(FIRMWARE, km43::MessageType::Firmware as u8);
    assert_eq!(TIME, km43::MessageType::Time as u8);
    assert_eq!(INVITE, km43::MessageType::Invite as u8);
    assert_eq!(APPROVE, km43::MessageType::Approve as u8);
    assert_eq!(REMOVE, km43::MessageType::Remove as u8);
    assert_eq!(DEDUP_WRITE_FAILED, km43::Condition::DEDUP_WRITE_FAILED.0);
}

#[test]
fn a_command_is_asked_about_with_what_it_read_as() {
    let write = SignedWrite {
        header: header(COMMAND),
        operation: vec![1, 2, 3],
    };
    let command = CommandOperation {
        cmd_id: 7,
        kind: 0x0101,
        args: vec![0xa0],
    };
    let Ok(asked) = asked_with(write, client(4), Ok(command)) else {
        panic!("a command");
    };
    assert_eq!(asked.header, header(COMMAND));
    assert_eq!(asked.client, client(4));
    assert_eq!(asked.command.cmd_id, 7);
    assert_eq!(asked.operation, vec![1, 2, 3]);
    let refused = asked_with(
        SignedWrite {
            header: header(COMMAND),
            operation: vec![],
        },
        client(4),
        Err(2),
    );
    assert!(matches!(
        refused,
        Err(Admission::Refused(Refusal::Operation(2)))
    ));
}

#[test]
fn an_entry_still_in_flight_after_a_second_ask_is_handed_back_again() {
    let write = SignedWrite {
        header: header(COMMAND),
        operation: operation(3, CommandKind::StartGenerator),
    };
    let Ok(asked) = asked(write, client(1)) else {
        panic!("a command");
    };
    let retry = in_flight(asked.reserved(Ok(Verdict::InFlight(Reserved(5)))));
    assert_eq!(retry.seat(), Reserved(5));
    let retry = in_flight(retry.again(Ok(Again::Verdict(Verdict::InFlight(Reserved(6))))));
    assert_eq!(retry.seat(), Reserved(6));
    let refused = retry.again(Err(Unchanged::NotHeld));
    assert_eq!(refusal(refused), Refusal::NotKept(Unchanged::NotHeld));
}
