//! The sessions, driven by a client's own half of the protocol and by a worker
//! that computes the key agreements.

use km43::{
    ClientChannel, ClientKind, CommandKind, DeviceId, EnrolAnswer, EnrolPending, Entropy, Envelope,
    ErrorCode, Fingerprint, Header, HelloOffer, HelloPending, HelloResponder, Incoming, Label,
    LinkErrorCode, MessageType, Outcome, PairArrival, PairOffer, PairPending, PairRefusal,
    PairReply, PrintedSecret, Prologue, PrologueFields, PublicKey, Sealed, SessionId, Signed,
    StaticKey, Suite, Version, MAX_FRAME, MAX_PAYLOAD,
};
use o89_core::body::Refused;
use o89_core::clients::{Clients, Occupant, Role};
use o89_core::idents::{ClientId, Conn, Epoch, Generation, LogSeq};
use o89_core::request::{Recorded, Reserved, Verdict};
use o89_core::secret::{ControllerKey, Secret};
use o89_core::session::{NetworkHeld, NetworkReset, ResetFailed, Sessions, TimeAnswer};
use o89_core::session_ask::{Ask, MatchAsk, Step, StoreAsk};
use o89_core::session_state::{
    Bound, ClientConnected, ClientDisconnected, Close, CloseReason, Compat, Computed, Done, Facts,
    Job, Keys, LogSpan, Reply, SessionNote, Task, time_expired, FAILURES, UNSPECIFIED,
};
use o89_core::session_wire::{Fault, VouchAnswer};
use o89_core::tick::Tick;

const DEVICE: [u8; 16] = [7; 16];
const PRINTED: [u8; 32] = [9; 32];
const CONTROLLER: [u8; 32] = [5; 32];
const SUITE: Suite = Suite::X25519ChachapolySha256;

fn conn(n: u16) -> Conn {
    Conn::new(n).expect("a nonzero handle")
}

fn id(n: u32) -> ClientId {
    ClientId::new(n).expect("a slot")
}

fn label() -> Label {
    Label::new(DeviceId::new(DEVICE), PrintedSecret::new(PRINTED))
}

fn controller_key() -> ControllerKey {
    ControllerKey::new(CONTROLLER).expect("entropy")
}

fn fingerprint() -> Fingerprint {
    controller_key().fingerprint()
}

/// The bytes of a key a `Hello` carries, out of its body.
fn handshake(frame: &[u8]) -> Vec<u8> {
    let envelope = Envelope::decode(frame).expect("an envelope");
    let keys = envelope.keys();
    let mut body = envelope.into_body();
    for _ in 0..keys {
        if body.key().expect("a key") == 2 {
            return body.bytes().expect("the handshake").to_vec();
        }
        body.skip().expect("skips");
    }
    panic!("a Hello carries a handshake");
}

/// The worker: it holds the controller key and computes one job at a time.
fn run(job: Job) -> Done {
    let Job { ticket, task } = job;
    let controller = controller_key().key();
    let mut dst = [0u8; MAX_FRAME];
    let result = match task {
        Task::Proceed {
            frame,
            prologue,
            ephemeral,
        } => {
            let mut plain = [0u8; km43::MAX_PAIR_OFFER];
            let offered = PairArrival::decode(Envelope::decode(&frame).expect("an envelope"))
                .expect("message 1")
                .open(&prologue, &label().pair_psk(), &mut plain)
                .expect("opens");
            let (awaiting, len) = offered
                .proceed(&controller, Entropy::new(ephemeral), &mut dst)
                .expect("message 2");
            Computed::Proceeded {
                awaiting,
                answer: dst[..len].to_vec(),
            }
        }
        Task::Enrol { frame, awaiting } => {
            match awaiting.read(Envelope::decode(&frame).expect("an envelope")) {
                Ok(enrolling) => {
                    let tag_key = *controller
                        .admit_key(DeviceId::new(DEVICE), &enrolling.client())
                        .expect("contributory")
                        .to_stored();
                    Computed::Enrolled { enrolling, tag_key }
                }
                Err(why) => Computed::PairFailed(Fault {
                    code: why.refusal().map(|code| code.code()),
                    counts: why.counts(),
                }),
            }
        }
        Task::Hello {
            frame,
            prologue,
            enrolled,
            ephemeral,
            report,
            ..
        } => {
            let message = handshake(&frame);
            let claimed = HelloResponder::read_claim(prologue.as_bytes(), &controller, &message)
                .expect("a claim");
            assert!(claimed.claimed().matches(&PublicKey::from_bytes(enrolled)));
            let mut plain = [0u8; MAX_FRAME];
            let (proved, _) = claimed
                .prove(&controller, &message, &mut plain)
                .expect("proved");
            let mut body = [0u8; 512];
            let len = km43::HelloReport {
                version: Version::V1_0,
                session: SessionId::from(report.conn.get()),
                fw_controller: report.fw_controller.as_str(),
                fw_comms: report.fw_comms.as_str(),
                capabilities: 0,
                log_oldest_seq: km43::LogSeq(report.log.oldest.0),
                log_newest_seq: km43::LogSeq(report.log.newest.0),
                state_seq: km43::StateSeq(0),
                time_known: report.time_known,
                caps: km43::Caps::THIS_CONTROLLER,
                topology: km43::Topology::THIS_CONTROLLER,
                client_id: km43::ClientId::new(report.client_id.get()).expect("a slot"),
                generation: km43::Generation::new(report.generation.get()).expect("nonzero"),
            }
            .encode(&mut body)
            .expect("fits");
            let mut reply = [0u8; MAX_FRAME];
            let (keys, replied) = proved
                .reply(Entropy::new(ephemeral), &body[..len], &mut reply)
                .expect("message 2");
            let mut cbor = Header {
                kind: MessageType::HelloResponse,
                session: SessionId::from(ticket.conn.get()),
                req_id: km43::ReqId(ticket.req_id.0),
            }
            .write(1, &mut dst)
            .expect("fits");
            cbor.key(1).expect("fits");
            cbor.bytes(&reply[..replied]).expect("fits");
            let written = cbor.finish().expect("fits");
            Computed::Bound {
                channel: keys.for_responder(),
                answer: dst[..written].to_vec(),
                client_id: report.client_id,
                generation: report.generation,
            }
        }
        Task::Vouch {
            request,
            epoch,
            bound,
            serial,
        } => {
            let request = km43::VouchRequest::decode(&request).expect("read where it opened");
            let answer = request.answer(
                &controller,
                DeviceId::new(DEVICE),
                km43::Epoch::new(epoch.get()).expect("nonzero"),
                (
                    km43::ClientId::new(bound.0.get()).expect("a slot"),
                    km43::Generation::new(bound.1.get()).expect("nonzero"),
                ),
            );
            let answer = match answer {
                km43::VouchAnswer::Vouched { tag, .. } => VouchAnswer::Vouched {
                    epoch,
                    client_id: bound.0,
                    generation: bound.1,
                    tag,
                },
                km43::VouchAnswer::BadVerifier => VouchAnswer::BadVerifier,
            };
            Computed::Vouched { answer, serial }
        }
    };
    Done { ticket, result }
}

/// A manufactured unit: the sessions over what a boot would read, and the
/// tables and the generator beside them.
struct Rig {
    sessions: Sessions,
    now: Tick,
    pairing_open: bool,
    /// Draws made, and whether the generator's record reads back.
    draws: u8,
    drbg_lost: bool,
    /// Whether the slots and their marks refuse writes.
    table_refused: bool,
    /// The last generation each slot was written under.
    marks: [u32; 8],
    /// Commands remembered.
    remembered: Vec<(ClientId, u32)>,
}

impl Rig {
    fn new() -> Self {
        Self::built(true, Clients::new(), [0; 8])
    }

    fn unprovisioned() -> Self {
        Self::built(false, Clients::new(), [0; 8])
    }

    /// A unit whose slots hold these already: the slot, its role and its
    /// label.
    fn seated(slots: &[(u8, Role, &str)]) -> Self {
        let mut clients = Clients::new();
        let mut marks = [0; 8];
        for (n, role, name) in slots {
            clients.seat(
                id(u32::from(*n)),
                Occupant {
                    client: *client_key(*n).public().as_bytes(),
                    tag_key: [*n; 32],
                    generation: Generation::first(),
                    role: *role,
                    kind: ClientKind::App as u8,
                    label: name.to_string(),
                },
            );
            marks[usize::from(*n) - 1] = 1;
        }
        Self::built(true, clients, marks)
    }

    fn built(provisioned: bool, clients: Clients, marks: [u32; 8]) -> Self {
        let secret = Secret::new(DEVICE, PRINTED).expect("entropy");
        let keys = Keys {
            secret: provisioned.then_some(secret),
            controller: provisioned.then(|| *controller_key().public().as_bytes()),
            epoch: Some(Epoch::first()),
            clients,
        };
        Rig {
            sessions: Sessions::new(keys),
            now: Tick::zero(),
            pairing_open: true,
            draws: 0,
            drbg_lost: false,
            table_refused: false,
            marks,
            remembered: Vec::new(),
        }
    }

    fn facts(&self) -> Facts<'static> {
        Facts {
            model: "test",
            fw_controller: "0.1.0",
            fw_comms: "0.1.0",
            log: LogSpan {
                oldest: LogSeq(0),
                newest: LogSeq(0),
            },
            time_known: false,
            pairing_open: self.pairing_open,
            network_version: 0,
            link: Some(Compat::Agreed),
        }
    }

    fn at(&mut self, millis: u64) {
        self.now = Tick::from_millis(millis);
    }

    fn draw(&mut self) -> Option<[u8; 32]> {
        if self.drbg_lost {
            return None;
        }
        self.draws += 1;
        let mut bytes = [self.draws; 32];
        bytes[31] = 0x43;
        Some(bytes)
    }

    fn challenge(&mut self) -> Option<[u8; 16]> {
        let drawn = self.draw()?;
        let mut bytes = [0u8; 16];
        bytes.copy_from_slice(&drawn[..16]);
        Some(bytes)
    }

    fn connect(&mut self, handle: u16) {
        assert_eq!(
            self.sessions.announce(conn(handle)),
            ClientConnected::Accepted
        );
        for owing in self.sessions.owing() {
            if let Some(drawn) = self.challenge() {
                self.sessions.settle(owing, drawn, self.now);
            }
        }
    }

    /// The slot whose client the message claims to be.
    fn matched(&self, ask: &MatchAsk) -> Result<ClientId, (u16, bool)> {
        let message = handshake(&ask.frame);
        let claimed = HelloResponder::read_claim(
            ask.prologue.as_bytes(),
            &controller_key().key(),
            &message,
        );
        let unknown = (ErrorCode::UnknownClient as u16, true);
        let claimed = claimed.map_err(|_| unknown)?.claimed();
        for (n, _) in &ask.keys {
            let held = self.sessions.keys().clients.occupant(id(*n));
            if held.is_some_and(|held| claimed.matches(&PublicKey::from_bytes(held.client))) {
                return Ok(id(*n));
            }
        }
        Err(unknown)
    }

    /// Write a slot to the part: the generation it landed under.
    fn store(&mut self, ask: &StoreAsk) -> Option<Generation> {
        if self.table_refused {
            return None;
        }
        let mark = &mut self.marks[ask.id.get() as usize - 1];
        *mark += 1;
        Generation::new(*mark)
    }

    /// Answer what a step asks for until it says something.
    fn drive(&mut self, mut step: Step, dst: &mut [u8]) -> Reply {
        let facts = self.facts();
        loop {
            let ask = match step {
                Step::Said(reply) => return reply,
                Step::Asks(ask) => ask,
            };
            step = match ask {
                Ask::Challenge(to) => {
                    let drawn = self.challenge();
                    Step::Said(
                        self.sessions
                            .discover_drawn(to, drawn, self.now, &facts, dst),
                    )
                }
                Ask::PairSecret(ask) => {
                    let drawn = self.draw();
                    Step::Said(self.sessions.pair_drawn(ask, drawn, dst))
                }
                Ask::Match(ask) => {
                    let matched = self.matched(&ask);
                    self.sessions.hello_matched(ask, matched, self.now, dst)
                }
                Ask::HelloSecret(ask) => {
                    let drawn = self.draw();
                    Step::Said(self.sessions.hello_drawn(ask, drawn, &facts, dst))
                }
                Ask::EnrolChallenge(ask) => {
                    let drawn = self.challenge();
                    self.sessions.enrol_drawn(ask, drawn, self.now, &facts, dst)
                }
                Ask::Store(ask) => {
                    let stored = self.store(&ask);
                    Step::Said(self.sessions.enrol_stored(ask, stored, dst))
                }
                Ask::Reserve(ask) => {
                    let key = (ask.asked.client, ask.asked.command.cmd_id);
                    self.remembered.push(key);
                    self.sessions
                        .command_reserved(ask, Ok(Verdict::Fresh(Reserved(0))), dst)
                }
                Ask::Again(_) => panic!("nothing is left in flight here"),
                Ask::Finish(ask) => {
                    let key = (ask.reservation.client(), ask.reservation.command().cmd_id);
                    self.remembered.retain(|of| *of != key);
                    Step::Said(self.sessions.command_finished(ask, Ok(()), dst))
                }
                Ask::SetSection(ask) => Step::Said(self.sessions.section_set(
                    ask,
                    Err(ErrorCode::MalformedFrame as u16),
                    dst,
                )),
                Ask::SectionVersion(ask) => Step::Said(self.sessions.section_refused(ask, 0, dst)),
                Ask::ReadSection(ask) => {
                    Step::Said(self.sessions.section_read(ask, Ok(vec![0xa0]), dst))
                }
                Ask::Wifi(ask) => Step::Said(self.sessions.wifi_read(ask, Ok(vec![0xa0]), dst)),
            };
        }
    }

    fn send(&mut self, frame: &[u8]) -> (Reply, Vec<u8>) {
        let facts = self.facts();
        let mut dst = [0u8; MAX_FRAME];
        let step = self.sessions.frame(frame, self.now, &facts, &mut dst);
        let reply = self.drive(step, &mut dst);
        (reply, dst[..reply.answer.unwrap_or(0)].to_vec())
    }

    fn deliver(&mut self, done: Done) -> (Reply, Vec<u8>) {
        let mut dst = [0u8; MAX_FRAME];
        let step = self.sessions.completed(done, self.now, &mut dst);
        let reply = self.drive(step, &mut dst);
        (reply, dst[..reply.answer.unwrap_or(0)].to_vec())
    }

    /// Run the next queued key agreement, as the worker would.
    fn compute(&mut self) -> Option<(Reply, Vec<u8>)> {
        let job = self.sessions.next_job()?;
        Some(self.deliver(run(job)))
    }

    /// Send a handshake frame and compute what it queued.
    fn exchange(&mut self, frame: &[u8]) -> (Reply, Vec<u8>) {
        let (reply, answer) = self.send(frame);
        let handle = u16::from(Envelope::decode(frame).expect("a frame").header().session);
        if reply.note != Some(SessionNote::Queued(conn(handle))) {
            return (reply, answer);
        }
        self.compute().expect("a job was queued")
    }

    fn failures(&self, handle: u16) -> usize {
        self.sessions
            .row(conn(handle))
            .expect("a row")
            .failures
            .len()
    }

    fn enrolled(&self) -> usize {
        self.sessions.keys().clients.enrolled()
    }
}

/// A client on one connection, built from the protocol's client half.
struct Phone {
    handle: u16,
    req: u32,
    draws: u8,
    challenge: Option<[u8; 16]>,
    epoch: km43::Epoch,
    enrolment: Option<km43::Enrolment>,
    channel: Option<ClientChannel>,
}

/// What a `Hello` was answered with.
#[derive(Debug)]
struct Opened {
    client_id: u32,
    generation: u32,
    capabilities: u32,
}

impl Phone {
    fn on(handle: u16) -> Self {
        Phone {
            handle,
            req: 0,
            draws: 0,
            challenge: None,
            epoch: km43::Epoch::FIRST,
            enrolment: None,
            channel: None,
        }
    }

    fn header(&mut self, kind: MessageType) -> Header {
        self.req = self.req.wrapping_add(1);
        Header {
            kind,
            session: SessionId::from(self.handle),
            req_id: km43::ReqId(self.req),
        }
    }

    /// A frame with an empty body.
    fn bodiless(&mut self, kind: MessageType) -> Vec<u8> {
        let mut dst = [0u8; 64];
        let len = self
            .header(kind)
            .write(0, &mut dst)
            .expect("fits")
            .finish()
            .expect("fits");
        dst[..len].to_vec()
    }

    fn entropy(&mut self) -> Entropy {
        self.draws = self.draws.wrapping_add(1);
        let mut bytes = [0u8; 32];
        bytes[0] = u8::try_from(self.handle).expect("a small handle");
        bytes[1] = self.draws;
        bytes[31] = 0x40;
        Entropy::new(bytes)
    }

    fn prologue(&self) -> Prologue {
        Prologue::new(&PrologueFields {
            suite: SUITE,
            version: Version::V1_0,
            device_id: DeviceId::new(DEVICE),
            epoch: self.epoch,
            challenge: self.challenge.as_ref().expect("a challenge to present"),
            handle: SessionId::from(self.handle),
        })
    }

    fn discover(&mut self, rig: &mut Rig) -> Reply {
        let frame = self.bodiless(MessageType::Discover);
        let (reply, answer) = rig.send(&frame);
        if let Ok(envelope) = Envelope::decode(&answer) {
            if let Ok(discovery) = km43::Discovery::decode(envelope) {
                self.challenge = Some(discovery.challenge);
                self.epoch = discovery.epoch;
            }
        }
        reply
    }

    /// Discover as setup: the unit answers with a challenge and notes
    /// nothing, or the test stops here rather than later and elsewhere.
    fn challenged(&mut self, rig: &mut Rig) {
        let reply = self.discover(rig);
        assert!(reply.answer.is_some(), "Discover was answered");
        assert_eq!(reply.note, None);
        assert!(self.challenge.is_some(), "the answer carried a challenge");
    }

    /// Pairing message 1 under `label`, as a client holding it writes it.
    fn pair_frame(
        &mut self,
        under: &Label,
        name: &str,
        kind: ClientKind,
    ) -> (PairPending, Vec<u8>) {
        let mut dst = [0u8; MAX_FRAME];
        let entropy = self.entropy();
        let header = self.header(MessageType::Pair);
        let (pending, len) = PairPending::start(
            &self.prologue(),
            SUITE,
            under,
            entropy,
            &PairOffer {
                version: Version::V1_0,
                client_version: "test",
                client_kind: kind,
                label: name,
            },
            header,
            &mut dst,
        )
        .expect("message 1");
        (pending, dst[..len].to_vec())
    }

    /// A whole pairing: message 1, message 2 checked against the label's
    /// fingerprint, message 3 under `key`, and the answer read. The
    /// enrolment is kept before message 3 goes.
    fn pair(
        &mut self,
        rig: &mut Rig,
        name: &str,
        kind: ClientKind,
        key: StaticKey,
    ) -> Result<EnrolAnswer, PairRefusal> {
        self.challenged(rig);
        let (pending, frame) = self.pair_frame(&label(), name, kind);
        let (_, answer) = rig.exchange(&frame);
        let envelope = Envelope::decode(&answer).expect("an answer");
        let reply = pending
            .read(envelope, &label(), &fingerprint())
            .expect("a reply the label vouches for");
        let proceeding = match reply {
            PairReply::Proceed(proceeding) => proceeding,
            PairReply::Refused(refusal) => return Err(refusal),
        };
        let mut dst = [0u8; MAX_FRAME];
        let header = self.header(MessageType::Enrol);
        let (enrol, len) = proceeding
            .finish(&key, header, &mut dst)
            .expect("message 3");
        self.enrolment = Some(enrolment(key, self.epoch));
        let (_, answer) = rig.exchange(&dst[..len]);
        let answer = read_enrol(enrol, &answer);
        self.challenge = Some(answer.next_challenge);
        Ok(answer)
    }

    /// A `Hello` against the kept enrolment and the live challenge.
    fn hello_frame(&mut self) -> (HelloPending, Vec<u8>) {
        let mut dst = [0u8; MAX_FRAME];
        let entropy = self.entropy();
        let header = self.header(MessageType::Hello);
        let (pending, len) = HelloPending::start(
            &self.prologue(),
            self.enrolment.as_ref().expect("enrolled"),
            entropy,
            &HelloOffer {
                version: Version::V1_0,
                client_version: "test",
            },
            header,
            &mut dst,
        )
        .expect("message 1");
        (pending, dst[..len].to_vec())
    }

    fn hello(&mut self, rig: &mut Rig) -> Result<Opened, Vec<u8>> {
        let (pending, frame) = self.hello_frame();
        let (_, answer) = rig.exchange(&frame);
        let Ok(envelope) = Envelope::decode(&answer) else {
            return Err(answer);
        };
        if envelope.header().kind != MessageType::HelloResponse {
            return Err(answer);
        }
        let mut plain = [0u8; MAX_PAYLOAD];
        let session = pending
            .finish(
                self.enrolment.as_ref().expect("enrolled"),
                envelope,
                &mut plain,
            )
            .expect("message 2 opens");
        let report = session.report();
        assert_eq!(report.fw_controller, "0.1.0");
        let opened = Opened {
            client_id: report.client_id.get(),
            generation: report.generation.get(),
            capabilities: report.capabilities as u32,
        };
        self.channel = Some(session.into_channel());
        Ok(opened)
    }

    /// A sealed request under the session.
    fn sealed(&mut self, kind: MessageType, inner: &[u8]) -> Vec<u8> {
        let mut dst = [0u8; MAX_FRAME];
        let channel = self.channel.as_mut().expect("a session");
        let (req, len) = channel
            .tx
            .seal(kind, SessionId::from(self.handle), inner, &mut dst)
            .expect("sealed");
        self.req = req.0;
        dst[..len].to_vec()
    }

    fn signed(&mut self, kind: MessageType, operation: &[u8]) -> Vec<u8> {
        let mut dst = [0u8; MAX_FRAME];
        let channel = self.channel.as_mut().expect("a session");
        let (_, len) = Signed::new(kind, operation)
            .expect("a write")
            .seal(&mut channel.tx, SessionId::from(self.handle), &mut dst)
            .expect("sealed");
        dst[..len].to_vec()
    }

    /// Open an answer under the session: its type and inner body.
    fn open(&mut self, answer: &[u8]) -> (MessageType, Vec<u8>) {
        let channel = self.channel.as_mut().expect("a session");
        let envelope = Envelope::decode(answer).expect("an envelope");
        let kind = envelope.header().kind;
        let mut plain = [0u8; MAX_PAYLOAD];
        let opened = Sealed::decode(envelope)
            .and_then(|sealed| sealed.open(&mut channel.rx, &mut plain))
            .expect("opens under the session");
        (kind, opened.inner().to_vec())
    }
}

fn enrolment(key: StaticKey, epoch: km43::Epoch) -> km43::Enrolment {
    km43::Enrolment::new(
        DeviceId::new(DEVICE),
        controller_key().public(),
        key,
        SUITE,
        epoch,
    )
}

/// Message 2, read and checked against the label as a client does.
fn proceeds(pending: PairPending, answer: &[u8]) -> km43::PairProceeding {
    let read = pending.read(
        Envelope::decode(answer).expect("an answer"),
        &label(),
        &fingerprint(),
    );
    match read {
        Ok(PairReply::Proceed(proceeding)) => proceeding,
        Ok(PairReply::Refused(refusal)) => panic!("refused: {refusal:?}"),
        Err(why) => panic!("message 2 did not read: {why:?}"),
    }
}

fn read_enrol(pending: EnrolPending, answer: &[u8]) -> EnrolAnswer {
    let mut plain = [0u8; MAX_PAYLOAD];
    pending
        .read(Envelope::decode(answer).expect("an answer"), &mut plain)
        .expect("sealed under the pairing's keys")
}

fn client_key(n: u8) -> StaticKey {
    let mut bytes = [n; 32];
    bytes[31] = 0x41;
    StaticKey::generate(Entropy::new(bytes))
}

/// The code a bare error carries.
fn bare_code(answer: &[u8]) -> u16 {
    let envelope = Envelope::decode(answer).expect("an envelope");
    assert_eq!(envelope.header().kind, MessageType::ErrorResponse);
    let mut body = envelope.into_body();
    assert_eq!(body.key().expect("a key"), 1);
    body.u16().expect("a code")
}

fn enrolled_phone(rig: &mut Rig, handle: u16, name: &str, key: u8) -> Phone {
    rig.connect(handle);
    let mut phone = Phone::on(handle);
    let answer = phone
        .pair(rig, name, ClientKind::App, client_key(key))
        .expect("proceeds");
    assert!(matches!(
        answer.outcome,
        Outcome::Enrolled(..) | Outcome::Reclaimed(..)
    ));
    phone
}

fn enrolled_as(n: u32, generation: u32) -> Outcome {
    Outcome::Enrolled(
        km43::ClientId::new(n).expect("a slot"),
        km43::Generation::new(generation).expect("nonzero"),
    )
}

fn reclaimed_as(n: u32, generation: u32) -> Outcome {
    Outcome::Reclaimed(
        km43::ClientId::new(n).expect("a slot"),
        km43::Generation::new(generation).expect("nonzero"),
    )
}

/// The role slot `n` holds now.
fn role_of(rig: &Rig, n: u32) -> Option<Role> {
    rig.sessions
        .keys()
        .clients
        .occupant(id(n))
        .map(|held| held.role)
}

#[test]
fn p_060_discover_answers_with_the_rows_live_challenge_and_the_same_one_again() {
    let mut rig = Rig::new();
    rig.connect(1);
    let mut phone = Phone::on(1);
    assert_eq!(phone.discover(&mut rig).note, None);
    let first = phone.challenge;
    phone.challenged(&mut rig);
    assert_eq!(phone.challenge, first);
    assert!(first.is_some());
}

#[test]
fn p_060_p_235_a_unit_nobody_manufactured_answers_discover_with_18() {
    let mut rig = Rig::unprovisioned();
    rig.connect(1);
    let mut phone = Phone::on(1);
    let frame = phone.bodiless(MessageType::Discover);
    let (reply, answer) = rig.send(&frame);
    assert_eq!(bare_code(&answer), ErrorCode::ChallengeUnavailable as u16);
    assert_eq!(reply.note, Some(SessionNote::NoChallenge));
}

#[test]
fn p_237_a_generator_that_does_not_read_back_gives_no_challenge_and_no_ephemeral() {
    let mut rig = Rig::new();
    rig.connect(1);
    let mut phone = Phone::on(1);
    phone.challenged(&mut rig);
    // The challenge was a draw; the next draw's successor will not land.
    rig.drbg_lost = true;
    let (_, frame) = phone.pair_frame(&label(), "phone", ClientKind::App);
    let (reply, answer) = rig.send(&frame);
    assert_eq!(bare_code(&answer), ErrorCode::ChallengeUnavailable as u16);
    assert_eq!(reply.note, Some(SessionNote::EntropyUnavailable));
    assert!(rig.sessions.next_job().is_none(), "nothing was queued");
    let reply = phone.discover(&mut rig);
    assert_eq!(reply.note, Some(SessionNote::EntropyUnavailable));
}

#[test]
fn p_064_p_240_a_label_holder_in_the_window_is_enrolled_at_the_lowest_free_slot() {
    let mut rig = Rig::new();
    rig.connect(1);
    let mut phone = Phone::on(1);
    let answer = phone
        .pair(&mut rig, "phone", ClientKind::App, client_key(1))
        .expect("proceeds");
    assert_eq!(answer.outcome, enrolled_as(1, 1));
    let held = rig
        .sessions
        .keys()
        .clients
        .occupant(id(1))
        .expect("written before the answer named it");
    assert!(PublicKey::from_bytes(held.client).matches(&client_key(1).public()));
    assert_eq!(held.label, "phone");
    assert_eq!(held.role, Role::Owner);
}

#[test]
fn p_064_p_222_the_next_challenge_opens_a_hello_on_the_same_transport() {
    let mut rig = Rig::new();
    let mut phone = enrolled_phone(&mut rig, 1, "phone", 1);
    let report = phone.hello(&mut rig).expect("a session");
    assert_eq!(report.client_id, 1);
    assert_eq!(report.generation, 1);
    assert!(rig.sessions.is_bound(conn(1)));
    assert_eq!(rig.sessions.proven(conn(1)), Some(id(1)));
    assert_eq!(rig.sessions.bound(), 1);
}

#[test]
fn p_241_a_closed_window_is_refused_under_the_refusal_key_and_not_counted() {
    let mut rig = Rig::new();
    rig.pairing_open = false;
    rig.connect(1);
    let mut phone = Phone::on(1);
    let refused = phone
        .pair(&mut rig, "phone", ClientKind::App, client_key(1))
        .err();
    assert_eq!(refused, Some(PairRefusal::WindowClosed));
    assert!(rig.sessions.next_job().is_none(), "no DH was queued");
    assert_eq!(rig.failures(1), 0);
}

#[test]
fn p_241_p_067_a_full_table_with_no_such_label_is_refused_before_any_dh() {
    // An owner, six admins and the viewer.
    let mut rig = Rig::seated(&[
        (1, Role::Owner, "b"),
        (2, Role::Admin, "c"),
        (3, Role::Admin, "d"),
        (4, Role::Admin, "e"),
        (5, Role::Admin, "f"),
        (6, Role::Admin, "g"),
        (7, Role::Admin, "h"),
        (8, Role::Viewer, "i"),
    ]);
    rig.connect(1);
    let mut phone = Phone::on(1);
    let refused = phone
        .pair(&mut rig, "stranger", ClientKind::App, client_key(20))
        .err();
    assert_eq!(refused, Some(PairRefusal::TableFull));
    // The same label reclaims instead, through message 2.
    rig.connect(2);
    let mut owner = Phone::on(2);
    let answer = owner
        .pair(&mut rig, "c", ClientKind::App, client_key(21))
        .expect("proceeds");
    assert_eq!(answer.outcome, reclaimed_as(2, 2));
}

#[test]
fn p_066_a_wrong_label_is_bare_10_counted_and_queues_nothing() {
    let mut rig = Rig::new();
    rig.connect(1);
    let mut phone = Phone::on(1);
    phone.challenged(&mut rig);
    let wrong = Label::new(DeviceId::new(DEVICE), PrintedSecret::new([1; 32]));
    let (_, frame) = phone.pair_frame(&wrong, "phone", ClientKind::App);
    let (reply, answer) = rig.send(&frame);
    assert_eq!(bare_code(&answer), ErrorCode::AuthenticationFailed as u16);
    assert_eq!(reply.note, Some(SessionNote::Refused(0x0a)));
    assert!(rig.sessions.next_job().is_none());
    assert_eq!(rig.failures(1), 1);
}

#[test]
fn p_061_the_challenge_is_consumed_even_by_a_pair_that_fails() {
    let mut rig = Rig::new();
    rig.connect(1);
    let mut phone = Phone::on(1);
    phone.challenged(&mut rig);
    let wrong = Label::new(DeviceId::new(DEVICE), PrintedSecret::new([1; 32]));
    let (_, frame) = phone.pair_frame(&wrong, "phone", ClientKind::App);
    let _ = rig.send(&frame);
    let (_, frame) = phone.pair_frame(&label(), "phone", ClientKind::App);
    let (_, answer) = rig.send(&frame);
    assert_eq!(
        bare_code(&answer),
        ErrorCode::StaleChallengeReconnectAndRetry as u16
    );
}

#[test]
fn p_229_an_enrol_on_a_row_holding_no_handshake_is_10_and_uncounted() {
    let mut rig = Rig::new();
    rig.connect(1);
    let mut phone = Phone::on(1);
    let mut dst = [0u8; 128];
    let header = phone.header(MessageType::Enrol);
    let mut cbor = header.write(1, &mut dst).expect("fits");
    cbor.key(1).expect("fits");
    cbor.bytes(&[0u8; 64]).expect("fits");
    let len = cbor.finish().expect("fits");
    let (_, answer) = rig.send(&dst[..len]);
    assert_eq!(bare_code(&answer), ErrorCode::AuthenticationFailed as u16);
    assert_eq!(rig.failures(1), 0);
}

#[test]
fn p_229_a_second_pair_abandons_the_first_and_its_result_is_discarded() {
    let mut rig = Rig::new();
    rig.connect(1);
    let mut phone = Phone::on(1);
    phone.challenged(&mut rig);
    let (_, frame) = phone.pair_frame(&label(), "phone", ClientKind::App);
    let (reply, _) = rig.send(&frame);
    assert_eq!(reply.note, Some(SessionNote::Queued(conn(1))));
    let first = rig.sessions.next_job().expect("queued");
    // A second attempt on the same connection before the first is done.
    phone.challenged(&mut rig);
    let (_, frame) = phone.pair_frame(&label(), "phone", ClientKind::App);
    let (reply, _) = rig.send(&frame);
    assert_eq!(reply.note, Some(SessionNote::Queued(conn(1))));
    let (stale, _) = rig.deliver(run(first));
    assert_eq!(stale.answer, None);
    assert_eq!(stale.note, Some(SessionNote::Stale));
    let (reply, _) = rig.compute().expect("the second one is next");
    assert!(reply.answer.is_some());
}

#[test]
fn p_229_a_pairing_is_abandoned_120_seconds_after_message_1() {
    let mut rig = Rig::new();
    rig.connect(1);
    let mut phone = Phone::on(1);
    phone.challenged(&mut rig);
    let (pending, frame) = phone.pair_frame(&label(), "phone", ClientKind::App);
    let (_, answer) = rig.exchange(&frame);
    let proceeding = proceeds(pending, &answer);
    rig.at(120_000);
    let _ = rig.sessions.tick(rig.now);
    let mut dst = [0u8; MAX_FRAME];
    let header = phone.header(MessageType::Enrol);
    let (_, len) = proceeding
        .finish(&client_key(1), header, &mut dst)
        .expect("message 3");
    let (_, answer) = rig.send(&dst[..len]);
    assert_eq!(bare_code(&answer), ErrorCode::AuthenticationFailed as u16);
    assert_eq!(rig.enrolled(), 0);
}

#[test]
fn p_229_a_result_for_a_connection_that_dropped_is_discarded() {
    let mut rig = Rig::new();
    rig.connect(1);
    let mut phone = Phone::on(1);
    phone.challenged(&mut rig);
    let (_, frame) = phone.pair_frame(&label(), "phone", ClientKind::App);
    let _ = rig.send(&frame);
    let job = rig.sessions.next_job().expect("queued");
    assert_eq!(rig.sessions.release(conn(1)), ClientDisconnected::Released);
    let (reply, _) = rig.deliver(run(job));
    assert_eq!(reply.note, Some(SessionNote::Stale));
    assert!(!rig.sessions.is_computing(), "the worker is free again");
}

#[test]
fn p_240_the_same_key_pairing_again_takes_its_own_slot_back_under_a_new_generation() {
    let mut rig = Rig::new();
    let _first = enrolled_phone(&mut rig, 1, "phone", 1);
    let _other = enrolled_phone(&mut rig, 2, "tablet", 2);
    rig.connect(3);
    let mut again = Phone::on(3);
    let answer = again
        .pair(&mut rig, "renamed", ClientKind::App, client_key(1))
        .expect("proceeds");
    assert_eq!(answer.outcome, reclaimed_as(1, 2));
    assert_eq!(rig.enrolled(), 2);
}

#[test]
fn p_240_a_reclaim_by_label_revokes_the_old_install_and_unbinds_it() {
    // Five admins beside the two that pair first, so the same label is
    // reclaimed: slot 8 is free, and past the admin ceiling.
    let mut rig = Rig::seated(&[
        (3, Role::Admin, "other"),
        (4, Role::Admin, "other"),
        (5, Role::Admin, "other"),
        (6, Role::Admin, "other"),
        (7, Role::Admin, "other"),
    ]);
    let _owner = enrolled_phone(&mut rig, 3, "owner", 9);
    let mut old = enrolled_phone(&mut rig, 1, "phone", 1);
    old.hello(&mut rig).expect("a session");
    rig.connect(2);
    let mut new = Phone::on(2);
    let answer = new
        .pair(&mut rig, "phone", ClientKind::App, client_key(30))
        .expect("proceeds");
    assert!(matches!(answer.outcome, Outcome::Reclaimed(slot, _) if slot.get() == 2));
    assert_eq!(role_of(&rig, 2), Some(Role::Admin));
    assert!(
        !rig.sessions.is_bound(conn(1)),
        "the old session went first"
    );
    old.challenged(&mut rig);
    let refused = old.hello(&mut rig).expect_err("refused");
    assert_eq!(bare_code(&refused), ErrorCode::UnknownClient as u16);
}

#[test]
fn p_064_a_slot_that_does_not_land_is_not_stored_and_the_window_stays_open() {
    let mut rig = Rig::new();
    rig.connect(1);
    let mut phone = Phone::on(1);
    phone.challenged(&mut rig);
    let (pending, frame) = phone.pair_frame(&label(), "phone", ClientKind::App);
    let (_, answer) = rig.exchange(&frame);
    let proceeding = proceeds(pending, &answer);
    let mut dst = [0u8; MAX_FRAME];
    let header = phone.header(MessageType::Enrol);
    let (enrol, len) = proceeding
        .finish(&client_key(1), header, &mut dst)
        .expect("message 3");
    rig.table_refused = true;
    let (reply, answer) = rig.exchange(&dst[..len]);
    rig.table_refused = false;
    assert_eq!(reply.note, Some(SessionNote::TableNotStored));
    let answer = read_enrol(enrol, &answer);
    assert_eq!(answer.outcome, Outcome::NotStored);
    assert_eq!(rig.enrolled(), 0);
    // Not `Paired`: the adapter leaves the window open, and the client
    // pairs again from the challenge the answer carried.
    phone.challenge = Some(answer.next_challenge);
    let (_, frame) = phone.pair_frame(&label(), "phone", ClientKind::App);
    let (reply, _) = rig.send(&frame);
    assert_eq!(reply.note, Some(SessionNote::Queued(conn(1))));
}

#[test]
fn p_238_a_hello_whose_tag_matches_no_slot_is_12_counted_and_queues_nothing() {
    let mut rig = Rig::new();
    rig.connect(1);
    let mut stranger = Phone::on(1);
    stranger.challenged(&mut rig);
    stranger.enrolment = Some(enrolment(client_key(9), km43::Epoch::FIRST));
    let (_, frame) = stranger.hello_frame();
    let (reply, answer) = rig.send(&frame);
    assert_eq!(bare_code(&answer), ErrorCode::UnknownClient as u16);
    assert_eq!(reply.note, Some(SessionNote::Refused(0x0c)));
    assert!(rig.sessions.next_job().is_none(), "no DH for a stranger");
    assert_eq!(rig.failures(1), 1);
}

#[test]
fn p_242_an_enrol_answer_the_relay_dropped_still_leaves_a_hello_that_names_the_slot() {
    let mut rig = Rig::new();
    rig.connect(1);
    let mut phone = Phone::on(1);
    phone.challenged(&mut rig);
    let (pending, frame) = phone.pair_frame(&label(), "phone", ClientKind::App);
    let (_, answer) = rig.exchange(&frame);
    let proceeding = proceeds(pending, &answer);
    let mut dst = [0u8; MAX_FRAME];
    let header = phone.header(MessageType::Enrol);
    let key = client_key(4);
    let (_, len) = proceeding
        .finish(&key, header, &mut dst)
        .expect("message 3");
    phone.enrolment = Some(enrolment(key, km43::Epoch::FIRST));
    let _dropped = rig.exchange(&dst[..len]);
    phone.challenged(&mut rig);
    let report = phone.hello(&mut rig).expect("the slot was written");
    assert_eq!(report.client_id, 1);
}

#[test]
fn p_239_a_hello_computed_while_its_slot_was_re_keyed_binds_nothing() {
    let mut rig = Rig::new();
    let mut phone = enrolled_phone(&mut rig, 1, "phone", 1);
    // Another install of the same key pairs on a second connection, as far
    // as the slot it is about to be written into.
    rig.connect(2);
    let mut other = Phone::on(2);
    other.challenged(&mut rig);
    let (pending, frame) = other.pair_frame(&label(), "phone", ClientKind::App);
    let (_, answer) = rig.exchange(&frame);
    let mut dst = [0u8; MAX_FRAME];
    let header = other.header(MessageType::Enrol);
    let (_, len) = proceeds(pending, &answer)
        .finish(&client_key(1), header, &mut dst)
        .expect("message 3");
    let (reply, _) = rig.send(&dst[..len]);
    assert_eq!(reply.note, Some(SessionNote::Queued(conn(2))));
    let job = rig.sessions.next_job().expect("queued");
    let mut out = [0u8; MAX_FRAME];
    let facts = rig.facts();
    let Step::Asks(Ask::EnrolChallenge(ask)) =
        rig.sessions.completed(run(job), rig.now, &mut out)
    else {
        panic!("a challenge is asked for");
    };
    let drawn = rig.challenge();
    let Step::Asks(Ask::Store(ask)) =
        rig.sessions
            .enrol_drawn(ask, drawn, rig.now, &facts, &mut out)
    else {
        panic!("a slot is asked to be written");
    };
    let (_, frame) = phone.hello_frame();
    let (reply, _) = rig.send(&frame);
    assert_eq!(reply.note, Some(SessionNote::Queued(conn(1))));
    // The other install takes the slot while the `Hello` waits its turn.
    let stored = rig.store(&ask);
    let reply = rig.sessions.enrol_stored(ask, stored, &mut out);
    assert_eq!(reply.note, Some(SessionNote::Paired(id(1))));
    let (_, answer) = rig.compute().expect("computed");
    assert_eq!(bare_code(&answer), ErrorCode::UnknownClient as u16);
    assert!(!rig.sessions.is_bound(conn(1)));
}

#[test]
fn p_243_one_key_agreement_at_a_time_and_connections_take_turns() {
    let mut rig = Rig::new();
    let mut phones = [
        enrolled_phone(&mut rig, 1, "one", 1),
        enrolled_phone(&mut rig, 2, "two", 2),
        enrolled_phone(&mut rig, 3, "three", 3),
    ];
    for phone in &mut phones {
        let (_, frame) = phone.hello_frame();
        let (reply, answer) = rig.send(&frame);
        assert_eq!(
            answer.len(),
            0,
            "nothing is computed where the frame arrived"
        );
        assert_eq!(reply.note, Some(SessionNote::Queued(conn(phone.handle))));
    }
    let first = rig.sessions.next_job().expect("one is handed out");
    assert!(rig.sessions.next_job().is_none(), "never two at once");
    let served = first.ticket.conn;
    let _ = rig.deliver(run(first));
    let second = rig.sessions.next_job().expect("the next one").ticket.conn;
    assert_ne!(second, served);
}

const NONCE: km43::VouchNonce = km43::VouchNonce::new([0xB0; 16]);
const BINDING: km43::AccountBinding = km43::AccountBinding::new([0xD0; 32]);

fn account_key() -> StaticKey {
    let mut bytes = [0xA5; 32];
    bytes[31] = 0x42;
    StaticKey::generate(Entropy::new(bytes))
}

/// A vouch's body for a key, the nonce and the binding.
fn vouch_body(of: PublicKey) -> Vec<u8> {
    let mut body = [0u8; 96];
    let len = km43::VouchRequest {
        verifier: of,
        nonce: NONCE,
        binding: BINDING,
    }
    .encode(&mut body)
    .expect("fits");
    body[..len].to_vec()
}

/// A `Vouch` for [`account_key`] on the phone's session.
fn vouch_frame(phone: &mut Phone) -> Vec<u8> {
    let body = vouch_body(account_key().public());
    phone.sealed(MessageType::Vouch, &body)
}

/// A vouch's answer, opened under the phone's session.
fn vouch_answer(phone: &mut Phone, answer: &[u8]) -> km43::VouchAnswer {
    let (kind, body) = phone.open(answer);
    assert_eq!(kind, MessageType::VouchResponse);
    km43::VouchAnswer::decode(&body).expect("a vouch body")
}

/// The code a sealed error carries.
fn sealed_code(phone: &mut Phone, answer: &[u8]) -> u8 {
    let (kind, payload) = phone.open(answer);
    assert_eq!(kind, MessageType::ErrorResponse);
    assert_eq!(payload.get(1), Some(&0x01), "key 1 first");
    *payload.get(2).expect("a code under 24")
}

#[test]
fn p_244_p_243_a_vouch_is_computed_by_the_worker_and_verifies_for_the_verifier() {
    let mut rig = Rig::new();
    let mut phone = enrolled_phone(&mut rig, 1, "phone", 1);
    let report = phone.hello(&mut rig).expect("a session");
    assert_eq!(report.capabilities & (1 << 9), 0);
    let frame = vouch_frame(&mut phone);
    let (reply, answer) = rig.send(&frame);
    assert_eq!(reply.note, Some(SessionNote::Queued(conn(1))));
    assert_eq!(answer.len(), 0, "no DH where the frame arrived");
    let (reply, answer) = rig.compute().expect("the vouch was queued");
    assert!(reply.answer.is_some());
    let km43::VouchAnswer::Vouched {
        epoch,
        client_id,
        generation,
        tag,
    } = vouch_answer(&mut phone, &answer)
    else {
        panic!("refused a contributory verifier key");
    };
    assert_eq!(epoch, km43::Epoch::FIRST);
    assert_eq!(
        (client_id.get(), generation.get()),
        (report.client_id, report.generation)
    );
    let issued = km43::VouchIssue {
        device_id: DeviceId::new(DEVICE),
        epoch: km43::Epoch::FIRST,
        nonce: NONCE,
        binding: BINDING,
    };
    let claim = km43::VouchClaim {
        controller: controller_key().public(),
        client_id,
        generation,
        tag,
    };
    let vouched = issued
        .verify(&account_key(), Some(&fingerprint()), &claim)
        .expect("the verifier accepts it");
    assert_eq!(vouched.statement().client_id.get(), report.client_id);
    // Another account's binding does not verify under the same tag.
    let other = km43::VouchIssue {
        binding: km43::AccountBinding::new([0xD1; 32]),
        ..issued
    };
    assert_eq!(
        other
            .verify(&account_key(), Some(&fingerprint()), &claim)
            .err(),
        Some(km43::VouchRefusal::TagMismatch)
    );
    assert!(rig.sessions.is_bound(conn(1)));
    assert!(!rig.sessions.is_computing());
}

#[test]
fn p_245_a_low_order_verifier_key_is_answered_bad_verifier_under_the_session() {
    let mut rig = Rig::new();
    let mut phone = enrolled_phone(&mut rig, 1, "phone", 1);
    phone.hello(&mut rig).expect("a session");
    let body = vouch_body(PublicKey::from_bytes([0; 32]));
    let frame = phone.sealed(MessageType::Vouch, &body);
    let (reply, _) = rig.send(&frame);
    assert_eq!(reply.note, Some(SessionNote::Queued(conn(1))));
    let (_, answer) = rig.compute().expect("queued");
    assert!(matches!(
        vouch_answer(&mut phone, &answer),
        km43::VouchAnswer::BadVerifier
    ));
    assert!(rig.sessions.is_bound(conn(1)), "a refusal ends nothing");
}

#[test]
fn p_244_a_vouch_body_that_does_not_read_is_sealed_1_and_queues_nothing() {
    let mut rig = Rig::new();
    let mut phone = enrolled_phone(&mut rig, 1, "phone", 1);
    phone.hello(&mut rig).expect("a session");
    let frame = phone.sealed(MessageType::Vouch, &[0xa0]);
    let (reply, answer) = rig.send(&frame);
    assert_eq!(reply.note, Some(SessionNote::Refused(1)));
    assert_eq!(sealed_code(&mut phone, &answer), 1);
    assert!(rig.sessions.next_job().is_none());
    assert!(rig.sessions.is_bound(conn(1)));
}

#[test]
fn p_243_a_second_vouch_on_a_row_whose_job_is_taken_is_sealed_7_and_evicts_nothing() {
    let mut rig = Rig::new();
    let mut phone = enrolled_phone(&mut rig, 1, "phone", 1);
    phone.hello(&mut rig).expect("a session");
    let first = vouch_frame(&mut phone);
    let (reply, _) = rig.send(&first);
    assert_eq!(reply.note, Some(SessionNote::Queued(conn(1))));
    let second = vouch_frame(&mut phone);
    let (reply, answer) = rig.send(&second);
    assert_eq!(reply.note, Some(SessionNote::Refused(7)));
    assert_eq!(sealed_code(&mut phone, &answer), 7);
    let (_, answer) = rig.compute().expect("the first is still queued");
    assert!(matches!(
        vouch_answer(&mut phone, &answer),
        km43::VouchAnswer::Vouched { .. }
    ));
    // Out at the worker counts too.
    let (reply, _) = rig.send(&vouch_frame(&mut phone));
    assert_eq!(reply.note, Some(SessionNote::Queued(conn(1))));
    let job = rig.sessions.next_job().expect("handed out");
    let (reply, _) = rig.send(&vouch_frame(&mut phone));
    assert_eq!(reply.note, Some(SessionNote::Refused(7)));
    assert_eq!(job.ticket.conn, conn(1));
}

#[test]
fn p_243_a_vouch_takes_its_turn_with_the_handshakes_of_other_connections() {
    let mut rig = Rig::new();
    let mut vouching = enrolled_phone(&mut rig, 1, "one", 1);
    vouching.hello(&mut rig).expect("a session");
    let mut greeting = enrolled_phone(&mut rig, 2, "two", 2);
    let (reply, _) = rig.send(&vouch_frame(&mut vouching));
    assert_eq!(reply.note, Some(SessionNote::Queued(conn(1))));
    let (_, hello) = greeting.hello_frame();
    let (reply, _) = rig.send(&hello);
    assert_eq!(reply.note, Some(SessionNote::Queued(conn(2))));
    let first = rig.sessions.next_job().expect("one is handed out");
    assert!(rig.sessions.next_job().is_none(), "never two at once");
    let served = first.ticket.conn;
    let _ = rig.deliver(run(first));
    let second = rig.sessions.next_job().expect("the other one");
    assert_ne!(second.ticket.conn, served);
    assert!([conn(1), conn(2)].contains(&served));
}

#[test]
fn p_244_a_vouch_whose_session_ended_while_it_computed_is_sent_to_nobody() {
    let mut rig = Rig::new();
    let mut phone = enrolled_phone(&mut rig, 1, "phone", 1);
    phone.hello(&mut rig).expect("a session");
    let (reply, _) = rig.send(&vouch_frame(&mut phone));
    assert_eq!(reply.note, Some(SessionNote::Queued(conn(1))));
    let job = rig.sessions.next_job().expect("out at the worker");
    let goodbye = phone.sealed(MessageType::Goodbye, &[0xa0]);
    let (reply, _) = rig.send(&goodbye);
    assert_eq!(reply.note, Some(SessionNote::Unbound(conn(1))));
    let (reply, _) = rig.deliver(run(job));
    assert_eq!(reply.answer, None);
    assert_eq!(reply.note, Some(SessionNote::Stale));
    assert!(!rig.sessions.is_computing(), "the worker is free again");
}

#[test]
fn p_076_a_hello_binds_and_a_sealed_goodbye_ends_the_session_and_keeps_the_row() {
    let mut rig = Rig::new();
    let mut phone = enrolled_phone(&mut rig, 1, "phone", 1);
    phone.hello(&mut rig).expect("a session");
    let frame = phone.sealed(MessageType::Goodbye, &[0xa0]);
    let (reply, answer) = rig.send(&frame);
    assert_eq!(reply.note, Some(SessionNote::Unbound(conn(1))));
    let (kind, body) = phone.open(&answer);
    assert_eq!(kind, MessageType::GoodbyeResponse);
    assert_eq!(body, [0xa0]);
    assert!(!rig.sessions.is_bound(conn(1)));
    assert_eq!(rig.sessions.allocated(), 1);
}

#[test]
fn p_022_p_077_a_replayed_request_is_dropped_unanswered_uncounted_and_refreshes_nothing() {
    let mut rig = Rig::new();
    let mut phone = enrolled_phone(&mut rig, 1, "phone", 1);
    phone.hello(&mut rig).expect("a session");
    let frame = phone.sealed(MessageType::WifiStatus, &[0xa0]);
    let (reply, _) = rig.send(&frame);
    assert!(reply.answer.is_some());
    rig.at(60_000);
    let (reply, answer) = rig.send(&frame);
    assert_eq!(reply.note, Some(SessionNote::Dropped));
    assert_eq!(answer.len(), 0);
    assert_eq!(rig.failures(1), 0);
    let row = rig.sessions.row(conn(1)).expect("a row");
    let Bound::Session(binding) = &row.bound else {
        panic!("still bound");
    };
    assert_eq!(binding.heard, Tick::zero(), "the replay refreshed nothing");
}

#[test]
fn p_051_a_tag_that_fails_is_bare_10_counted_and_eight_shed_the_connection() {
    let mut rig = Rig::new();
    let mut phone = enrolled_phone(&mut rig, 1, "phone", 1);
    phone.hello(&mut rig).expect("a session");
    let mut last = None;
    for _ in 0..FAILURES {
        let mut frame = phone.sealed(MessageType::WifiStatus, &[0xa0]);
        let tail = frame.len() - 1;
        frame[tail] ^= 1;
        let (reply, answer) = rig.send(&frame);
        assert_eq!(bare_code(&answer), ErrorCode::AuthenticationFailed as u16);
        last = reply.close;
    }
    assert_eq!(
        last,
        Some(Close {
            conn: conn(1),
            reason: CloseReason::AuthenticationFailures,
        })
    );
    assert!(!rig.sessions.is_bound(conn(1)));
}

#[test]
fn p_143_a_session_request_before_any_hello_is_4_and_after_one_ended_is_9() {
    let mut rig = Rig::new();
    let mut phone = enrolled_phone(&mut rig, 1, "phone", 1);
    let frame = phone.bodiless(MessageType::WifiStatus);
    let (_, answer) = rig.send(&frame);
    assert_eq!(bare_code(&answer), ErrorCode::HelloRequiredFirst as u16);
    phone.hello(&mut rig).expect("a session");
    let frame = phone.sealed(MessageType::Goodbye, &[0xa0]);
    let _ = rig.send(&frame);
    let frame = phone.sealed(MessageType::WifiStatus, &[0xa0]);
    let (_, answer) = rig.send(&frame);
    assert_eq!(bare_code(&answer), ErrorCode::SessionExpired as u16);
}

/// A command's operation body.
fn start_command(cmd_id: u32) -> Vec<u8> {
    let mut op = [0u8; 64];
    let len = km43::CommandOperation {
        cmd_id,
        kind: CommandKind::StartGenerator,
        args: &[0xa0],
    }
    .encode(&mut op)
    .expect("fits");
    op[..len].to_vec()
}

#[test]
fn p_080_a_permitted_command_is_answered_rejected_sealed_and_remembers_nothing() {
    let mut rig = Rig::new();
    let mut phone = enrolled_phone(&mut rig, 1, "phone", 1);
    phone.hello(&mut rig).expect("a session");
    let frame = phone.signed(MessageType::Command, &start_command(7));
    let (_, answer) = rig.send(&frame);
    let (kind, body) = phone.open(&answer);
    assert_eq!(kind, MessageType::CommandResponse);
    let ack = km43::CommandAck::decode(&body).expect("an ack");
    assert_eq!(ack.cmd_id, 7);
    assert_eq!(ack.outcome, km43::Command::Rejected);
    assert_eq!(ack.detail, UNSPECIFIED);
    assert!(!rig.remembered.iter().any(|(of, _)| *of == id(1)));
}

/// A `SetConfig` of the network section with a body no section takes:
/// the ack's outcome, or `None` for the sealed error the section
/// answers once the mask has let it through.
fn network_write(rig: &mut Rig, phone: &mut Phone) -> Option<km43::SetConfig> {
    let mut operation = [0u8; 64];
    let len = km43::SetConfigOperation {
        section: km43::ConfigSection::Network,
        expected_version: 0,
        body: &[0xa0],
    }
    .encode(&mut operation)
    .expect("fits");
    let frame = phone.signed(MessageType::SetConfig, &operation[..len]);
    let (_, answer) = rig.send(&frame);
    let (kind, body) = phone.open(&answer);
    (kind == MessageType::SetConfigResponse)
        .then(|| km43::SetConfigAck::decode(&body).expect("ack").outcome)
}

#[test]
fn p_105_p_250_a_cloud_kind_paired_first_is_the_owner_and_may_write_the_network() {
    let mut rig = Rig::new();
    rig.connect(1);
    let mut relay = Phone::on(1);
    relay
        .pair(&mut rig, "relay", ClientKind::Cloud, client_key(1))
        .expect("proceeds");
    // The kind decides nothing: the first pairing at the panel is the
    // owner, whatever it said it was.
    assert_eq!(role_of(&rig, 1), Some(Role::Owner));
    relay.hello(&mut rig).expect("a session");
    assert_eq!(network_write(&mut rig, &mut relay), None);
}

#[test]
fn p_105_p_250_a_later_label_pairing_is_an_admin_refused_a_network_write_sealed() {
    let mut rig = Rig::new();
    let _owner = enrolled_phone(&mut rig, 1, "owner", 1);
    let mut phone = enrolled_phone(&mut rig, 2, "phone", 2);
    assert_eq!(role_of(&rig, 2), Some(Role::Admin));
    phone.hello(&mut rig).expect("a session");
    assert_eq!(
        network_write(&mut rig, &mut phone),
        Some(km43::SetConfig::Unauthorised)
    );
}

#[test]
fn p_240_p_250_the_same_key_pairing_again_keeps_the_owner_role() {
    let mut rig = Rig::new();
    let _owner = enrolled_phone(&mut rig, 1, "owner", 1);
    let _admin = enrolled_phone(&mut rig, 2, "admin", 2);
    rig.connect(3);
    let mut again = Phone::on(3);
    let answer = again
        .pair(&mut rig, "renamed", ClientKind::App, client_key(1))
        .expect("proceeds");
    assert!(matches!(answer.outcome, Outcome::Reclaimed(..)));
    // An owner exists, and it is this one: still the owner.
    assert_eq!(role_of(&rig, 1), Some(Role::Owner));
    assert_eq!(role_of(&rig, 2), Some(Role::Admin));
}

#[test]
fn p_258_the_sixth_admin_is_enrolled_and_a_seventh_refused_table_full_at_message_1() {
    let mut rig = Rig::seated(&[
        (1, Role::Owner, "owner"),
        (2, Role::Admin, "admin"),
        (3, Role::Admin, "admin"),
        (4, Role::Admin, "admin"),
        (5, Role::Admin, "admin"),
        (6, Role::Admin, "admin"),
    ]);
    // Five admins: the sixth takes slot 7.
    rig.connect(1);
    let mut sixth = Phone::on(1);
    let answer = sixth
        .pair(&mut rig, "sixth", ClientKind::App, client_key(20))
        .expect("proceeds");
    assert_eq!(answer.outcome, enrolled_as(7, 1));
    assert_eq!(role_of(&rig, 7), Some(Role::Admin));
    // Six: slot 8 is free and no admin may take it. Refused under the
    // refusal key before any DH.
    rig.connect(2);
    let mut seventh = Phone::on(2);
    let refused = seventh
        .pair(&mut rig, "seventh", ClientKind::App, client_key(21))
        .err();
    assert_eq!(refused, Some(PairRefusal::TableFull));
    assert!(rig.sessions.next_job().is_none(), "no DH was queued");
    assert_eq!(role_of(&rig, 8), None);
}

#[test]
fn p_250_the_role_is_decided_again_at_message_3() {
    let mut rig = Rig::new();
    // Two phones pass message 1 against an empty table, each as its
    // owner.
    rig.connect(1);
    let mut late = Phone::on(1);
    late.challenged(&mut rig);
    let (pending, frame) = late.pair_frame(&label(), "late", ClientKind::App);
    let (_, answer) = rig.exchange(&frame);
    let proceeding = proceeds(pending, &answer);
    rig.connect(2);
    let mut first = Phone::on(2);
    first
        .pair(&mut rig, "first", ClientKind::App, client_key(2))
        .expect("proceeds");
    assert_eq!(role_of(&rig, 1), Some(Role::Owner));
    // The late one finishes after an owner exists: an admin.
    let mut dst = [0u8; MAX_FRAME];
    let header = late.header(MessageType::Enrol);
    let (enrol, len) = proceeding
        .finish(&client_key(1), header, &mut dst)
        .expect("message 3");
    let (_, answer) = rig.exchange(&dst[..len]);
    let answer = read_enrol(enrol, &answer);
    assert_eq!(answer.outcome, enrolled_as(2, 1));
    assert_eq!(role_of(&rig, 2), Some(Role::Admin));
}

/// A sealed read, and the code of the sealed error it was answered
/// with, if it was one.
fn read_refused(
    rig: &mut Rig,
    phone: &mut Phone,
    kind: MessageType,
    inner: &[u8],
) -> Option<Incoming> {
    let frame = phone.sealed(kind, inner);
    let (_, answer) = rig.send(&frame);
    let (answered, body) = phone.open(&answer);
    (answered == MessageType::ErrorResponse).then(|| {
        km43::ErrorBody::authenticated(&body)
            .expect("an error body")
            .code
    })
}

fn get_config(section: km43::ConfigSection) -> Vec<u8> {
    let mut inner = [0u8; 16];
    let len = km43::GetConfigRequest { section }
        .encode(&mut inner)
        .expect("fits");
    inner[..len].to_vec()
}

fn scan(refresh: bool) -> Vec<u8> {
    let mut scan = [0u8; 8];
    let len = km43::ScanRequest { refresh }
        .encode(&mut scan)
        .expect("fits");
    scan[..len].to_vec()
}

#[test]
fn p_105_p_251_a_viewer_is_sealed_error_20_for_the_network_section_and_the_scan_list() {
    let mut rig = Rig::seated(&[(2, Role::Viewer, "relay")]);
    let _owner = enrolled_phone(&mut rig, 1, "owner", 1);
    rig.connect(2);
    let mut relay = Phone::on(2);
    relay.enrolment = Some(enrolment(client_key(2), km43::Epoch::FIRST));
    relay.challenged(&mut rig);
    relay.hello(&mut rig).expect("a session");
    let refused = Some(Incoming::Client(ErrorCode::RoleNotPermitted));
    for section in [km43::ConfigSection::Network, km43::ConfigSection::Cloud] {
        let inner = get_config(section);
        assert_eq!(
            read_refused(&mut rig, &mut relay, MessageType::GetConfig, &inner),
            refused,
            "{section:?}"
        );
    }
    assert_eq!(
        read_refused(&mut rig, &mut relay, MessageType::WifiScan, &scan(false)),
        refused
    );
    // What is not private is still read.
    let inner = get_config(km43::ConfigSection::IdentityAndSite);
    assert_ne!(
        read_refused(&mut rig, &mut relay, MessageType::GetConfig, &inner),
        refused
    );
}

#[test]
fn p_105_p_251_an_admin_reads_the_network_section_and_the_scan_list() {
    let mut rig = Rig::new();
    let _owner = enrolled_phone(&mut rig, 1, "owner", 1);
    let mut admin = enrolled_phone(&mut rig, 2, "admin", 2);
    admin.hello(&mut rig).expect("a session");
    let inner = get_config(km43::ConfigSection::Network);
    assert_eq!(
        read_refused(&mut rig, &mut admin, MessageType::GetConfig, &inner),
        None
    );
    assert_eq!(
        read_refused(&mut rig, &mut admin, MessageType::WifiScan, &scan(false)),
        None
    );
}

/// A clock write's operation body.
fn time_operation(at: u64) -> Vec<u8> {
    let mut op = [0u8; 32];
    let len = km43::TimeOperation { at }.encode(&mut op).expect("fits");
    op[..len].to_vec()
}

#[test]
fn p_110_a_client_time_is_handed_to_the_recorder_and_answered_sealed() {
    let mut rig = Rig::new();
    let mut phone = enrolled_phone(&mut rig, 1, "phone", 1);
    phone.hello(&mut rig).expect("a session");
    let frame = phone.signed(MessageType::Time, &time_operation(1_700_000_000_000));
    let (reply, _) = rig.send(&frame);
    let Some(SessionNote::TimeAsked(asked)) = reply.note else {
        panic!("handed to the recorder");
    };
    assert!(asked.authorised);
    assert_eq!(asked.at, 1_700_000_000_000);
    let mut dst = [0u8; MAX_FRAME];
    let reply = rig
        .sessions
        .time_answered(asked.ticket, TimeAnswer::Busy, &mut dst);
    let (kind, _) = phone.open(&dst[..reply.answer.expect("answered")]);
    assert_eq!(kind, MessageType::ErrorResponse);
}

#[test]
fn p_085_p_229_a_factory_reset_unbinds_abandons_and_leaves_every_slot_free() {
    let mut rig = Rig::new();
    let mut phone = enrolled_phone(&mut rig, 1, "phone", 1);
    phone.hello(&mut rig).expect("a session");
    rig.connect(2);
    let mut pairing = Phone::on(2);
    pairing.challenged(&mut rig);
    let (_, frame) = pairing.pair_frame(&label(), "tablet", ClientKind::App);
    let _ = rig.send(&frame);
    assert_eq!(
        rig.sessions.factory_reset(NetworkHeld::Other),
        Ok(NetworkReset::Erase)
    );
    rig.sessions
        .reset_clients(Ok(()), Epoch::new(2), Ok(()))
        .expect("resets");
    assert!(!rig.sessions.is_bound(conn(1)));
    assert!(
        rig.sessions.next_job().is_none(),
        "the handshake was abandoned"
    );
    let epoch = rig.sessions.keys().epoch.expect("advanced");
    assert_eq!(epoch.get(), 2);
    assert_eq!(rig.enrolled(), 0);
    phone.challenged(&mut rig);
    let refused = phone.hello(&mut rig).expect_err("refused");
    assert_eq!(bare_code(&refused), ErrorCode::UnknownClient as u16);
}

#[test]
fn l_061_a_ninth_connection_is_refused_and_no_row_is_evicted() {
    let mut rig = Rig::new();
    for handle in 1..=8 {
        rig.connect(handle);
    }
    assert_eq!(
        rig.sessions.announce(conn(9)),
        ClientConnected::RefusedTableFull
    );
    assert_eq!(rig.sessions.allocated(), 8);
}

#[test]
fn l_062_a_frame_on_a_handle_never_announced_is_259() {
    let mut rig = Rig::new();
    let mut phone = Phone::on(5);
    let frame = phone.bodiless(MessageType::Discover);
    let (_, answer) = rig.send(&frame);
    assert_eq!(bare_code(&answer), LinkErrorCode::UnknownHandle as u16);
}

#[test]
fn p_062_a_challenge_is_dead_at_120_seconds_and_discover_draws_another() {
    let mut rig = Rig::new();
    rig.connect(1);
    let mut phone = Phone::on(1);
    phone.challenged(&mut rig);
    let first = phone.challenge;
    rig.at(120_000);
    phone.challenged(&mut rig);
    assert_ne!(phone.challenge, first);
}

#[test]
fn a_frame_that_does_not_read_says_so_and_an_error_is_never_answered() {
    let mut rig = Rig::new();
    rig.connect(1);
    let (reply, answer) = rig.send(&[0xff, 0x00]);
    assert_eq!(bare_code(&answer), ErrorCode::MalformedFrame as u16);
    assert_eq!(reply.note, Some(SessionNote::Unreadable));
    let mut phone = Phone::on(1);
    let frame = phone.bodiless(MessageType::ErrorResponse);
    let (reply, answer) = rig.send(&frame);
    assert_eq!(reply.note, Some(SessionNote::ClientError));
    assert_eq!(answer.len(), 0);
    // What only the controller sends is no request.
    let frame = phone.bodiless(MessageType::HelloResponse);
    let (_, answer) = rig.send(&frame);
    assert_eq!(bare_code(&answer), ErrorCode::MalformedFrame as u16);
}

#[test]
fn before_the_link_is_up_every_frame_is_answered_so() {
    let mut rig = Rig::new();
    rig.connect(1);
    let mut phone = Phone::on(1);
    let frame = phone.bodiless(MessageType::Discover);
    let mut facts = rig.facts();
    facts.link = None;
    let mut dst = [0u8; MAX_FRAME];
    let Step::Said(reply) = rig.sessions.frame(&frame, rig.now, &facts, &mut dst) else {
        panic!("answered at once");
    };
    assert_eq!(
        bare_code(&dst[..reply.answer.expect("answered")]),
        LinkErrorCode::BeforeLinkUp as u16
    );
}

#[test]
fn a_kind_nobody_allocated_is_error_2() {
    let mut rig = Rig::new();
    rig.connect(1);
    let mut phone = Phone::on(1);
    // The kind after `Hello` was never given out; the frame is a `Hello`'s
    // with that byte in its place.
    let mut frame = phone.bodiless(MessageType::Hello);
    let at = frame
        .iter()
        .position(|byte| *byte == MessageType::Hello as u8)
        .expect("the kind");
    frame[at] = 0x02;
    let (_, answer) = rig.send(&frame);
    assert_eq!(bare_code(&answer), ErrorCode::UnknownMessageType as u16);
}

#[test]
fn an_idle_session_ends_at_fifteen_minutes_and_its_connection_is_closed() {
    let mut rig = Rig::new();
    let mut phone = enrolled_phone(&mut rig, 1, "phone", 1);
    phone.hello(&mut rig).expect("a session");
    rig.at(899_999);
    assert_eq!(rig.sessions.tick(rig.now).iter().len(), 0);
    assert!(rig.sessions.is_bound(conn(1)));
    rig.at(900_000);
    let expired = rig.sessions.tick(rig.now);
    assert_eq!(
        expired.iter(),
        [Close {
            conn: conn(1),
            reason: CloseReason::SessionExpired,
        }]
    );
    assert!(!rig.sessions.is_bound(conn(1)));
    assert_eq!(rig.sessions.allocated(), 1);
}

#[test]
fn announcing_twice_is_a_duplicate_and_releasing_twice_is_unknown() {
    let mut rig = Rig::new();
    rig.connect(1);
    assert_eq!(
        rig.sessions.announce(conn(1)),
        ClientConnected::RefusedHandleInUse
    );
    assert_eq!(rig.sessions.release(conn(1)), ClientDisconnected::Released);
    assert_eq!(
        rig.sessions.release(conn(1)),
        ClientDisconnected::UnknownHandle
    );
    rig.connect(1);
    rig.connect(2);
    rig.sessions.drop_all();
    assert_eq!(rig.sessions.allocated(), 0);
    assert!(rig.sessions.row(conn(2)).is_none());
}

#[test]
fn a_job_that_could_not_be_sent_is_handed_out_again() {
    let mut rig = Rig::new();
    rig.connect(1);
    let mut phone = Phone::on(1);
    phone.challenged(&mut rig);
    let (_, frame) = phone.pair_frame(&label(), "phone", ClientKind::App);
    let _ = rig.send(&frame);
    let job = rig.sessions.next_job().expect("queued");
    let ticket = job.ticket;
    rig.sessions.unsent(job);
    assert!(!rig.sessions.is_computing());
    let again = rig.sessions.next_job().expect("still queued");
    assert_eq!(again.ticket, ticket);
    let (reply, _) = rig.deliver(run(again));
    assert!(reply.answer.is_some());
}

#[test]
fn the_clocks_answer_goes_to_the_session_that_asked_and_to_no_other() {
    let mut rig = Rig::new();
    let mut phone = enrolled_phone(&mut rig, 1, "phone", 1);
    phone.hello(&mut rig).expect("a session");
    let frame = phone.signed(MessageType::Time, &time_operation(1_700_000_000_000));
    let (reply, _) = rig.send(&frame);
    let Some(SessionNote::TimeAsked(asked)) = reply.note else {
        panic!("handed to the recorder");
    };
    let ack = TimeAnswer::Ack {
        outcome: o89_core::session_wire::TimeOutcome::Accepted,
        at: Some(1_700_000_000_000),
    };
    let mut dst = [0u8; MAX_FRAME];
    // Another ticket is nobody's.
    let other = asked.ticket.wrapping_add(1);
    let reply = rig.sessions.time_answered(other, ack, &mut dst);
    assert_eq!(reply.answer, None);
    let reply = rig.sessions.time_answered(asked.ticket, ack, &mut dst);
    let (kind, body) = phone.open(&dst[..reply.answer.expect("answered")]);
    assert_eq!(kind, MessageType::TimeResponse);
    let ack = km43::TimeAck::decode(&body).expect("an ack");
    assert_eq!(ack.outcome(), km43::Time::Accepted);
    assert_eq!(ack.at(), Some(1_700_000_000_000));
    // Answered once: the ticket is spent.
    let spent = TimeAnswer::Busy;
    let reply = rig.sessions.time_answered(asked.ticket, spent, &mut dst);
    assert_eq!(reply.answer, None);
}

#[test]
fn a_clock_write_waits_sixty_seconds_for_its_answer() {
    let asked = Tick::from_millis(1_000);
    assert!(!time_expired(
        asked,
        Tick::from_millis(60_999)
    ));
    assert!(time_expired(
        asked,
        Tick::from_millis(61_000)
    ));
    // A tick behind the ask gives it no age to trust.
    assert!(time_expired(asked, Tick::zero()));
}

#[test]
fn a_command_seen_before_is_its_duplicate_and_one_not_kept_is_busy() {
    let mut rig = Rig::new();
    let mut phone = enrolled_phone(&mut rig, 1, "phone", 1);
    phone.hello(&mut rig).expect("a session");
    let facts = rig.facts();
    let mut dst = [0u8; MAX_FRAME];
    let frame = phone.signed(MessageType::Command, &start_command(9));
    let step = rig.sessions.frame(&frame, rig.now, &facts, &mut dst);
    let Step::Asks(Ask::Reserve(ask)) = step else {
        panic!("a command is reserved before it runs");
    };
    let step = rig
        .sessions
        .command_reserved(ask, Ok(Verdict::Already(Recorded::Accepted)), &mut dst);
    let Step::Said(reply) = step else {
        panic!("answered at once");
    };
    let (_, body) = phone.open(&dst[..reply.answer.expect("answered")]);
    let ack = km43::CommandAck::decode(&body).expect("an ack");
    assert_eq!(ack.outcome, km43::Command::Duplicate);
    assert_eq!(ack.cmd_id, 9);
    // An entry the part refused: busy, and nothing ran.
    let frame = phone.signed(MessageType::Command, &start_command(10));
    let step = rig.sessions.frame(&frame, rig.now, &facts, &mut dst);
    let Step::Asks(Ask::Reserve(ask)) = step else {
        panic!("a command is reserved before it runs");
    };
    let step = rig.sessions.command_reserved(
        ask,
        Err(o89_core::request::Unchanged::NotHeld),
        &mut dst,
    );
    let Step::Said(reply) = step else {
        panic!("answered at once");
    };
    assert_eq!(
        sealed_code(&mut phone, &dst[..reply.answer.expect("answered")]),
        7
    );
}

#[test]
fn a_section_accepted_is_acked_with_its_version() {
    let mut rig = Rig::new();
    let mut phone = enrolled_phone(&mut rig, 1, "phone", 1);
    phone.hello(&mut rig).expect("a session");
    let mut operation = [0u8; 64];
    let len = km43::SetConfigOperation {
        section: km43::ConfigSection::IdentityAndSite,
        expected_version: 4,
        body: &[0xa0],
    }
    .encode(&mut operation)
    .expect("fits");
    let frame = phone.signed(MessageType::SetConfig, &operation[..len]);
    let facts = rig.facts();
    let mut dst = [0u8; MAX_FRAME];
    let step = rig.sessions.frame(&frame, rig.now, &facts, &mut dst);
    let Step::Asks(Ask::SetSection(ask)) = step else {
        panic!("the section is asked to take it");
    };
    assert_eq!(ask.operation.expected_version, 4);
    assert_eq!(ask.operation.body, [0xa0]);
    let accepted = o89_core::session_wire::SetConfig::Accepted;
    let reply = rig.sessions.section_set(ask, Ok((5, accepted)), &mut dst);
    let (kind, body) = phone.open(&dst[..reply.answer.expect("answered")]);
    assert_eq!(kind, MessageType::SetConfigResponse);
    let ack = km43::SetConfigAck::decode(&body).expect("an ack");
    assert_eq!(ack.outcome, km43::SetConfig::Accepted);
    assert_eq!(ack.version, 5);
}

#[test]
fn a_section_reads_as_the_body_it_was_given() {
    let mut rig = Rig::new();
    let mut phone = enrolled_phone(&mut rig, 1, "phone", 1);
    phone.hello(&mut rig).expect("a session");
    let inner = get_config(km43::ConfigSection::IdentityAndSite);
    let frame = phone.sealed(MessageType::GetConfig, &inner);
    let (_, answer) = rig.send(&frame);
    let (kind, body) = phone.open(&answer);
    assert_eq!(kind, MessageType::GetConfigResponse);
    assert_eq!(body, [0xa0]);
}

#[test]
fn a_request_nobody_serves_yet_is_sealed_error_2() {
    let mut rig = Rig::new();
    let mut phone = enrolled_phone(&mut rig, 1, "phone", 1);
    phone.hello(&mut rig).expect("a session");
    let frame = phone.sealed(MessageType::ReadLog, &[0xa0]);
    let (_, answer) = rig.send(&frame);
    assert_eq!(sealed_code(&mut phone, &answer), 2);
}

#[test]
fn a_factory_reset_writes_the_cleared_network_where_there_is_room() {
    let mut rig = Rig::new();
    let held = NetworkHeld::Present { clears: true };
    assert_eq!(
        rig.sessions.factory_reset(held),
        Ok(NetworkReset::ClearAndErasePrevious)
    );
}

#[test]
fn a_frame_on_handle_zero_is_the_comms_processors_bug() {
    let mut rig = Rig::new();
    rig.connect(1);
    let mut dst = [0u8; 64];
    let len = Header {
        kind: MessageType::Discover,
        session: SessionId::from(0),
        req_id: km43::ReqId(1),
    }
    .write(0, &mut dst)
    .expect("fits")
    .finish()
    .expect("fits");
    let (reply, answer) = rig.send(&dst[..len]);
    assert_eq!(reply.note, Some(SessionNote::NoHandle));
    assert_eq!(answer.len(), 0);
}

#[test]
fn an_answer_that_does_not_fit_is_noted_and_not_sent() {
    let mut rig = Rig::new();
    rig.connect(1);
    let mut phone = Phone::on(1);
    let frame = phone.bodiless(MessageType::Discover);
    let facts = rig.facts();
    let mut dst = [0u8; 8];
    let Step::Said(reply) = rig.sessions.frame(&frame, rig.now, &facts, &mut dst) else {
        panic!("the row's challenge is live");
    };
    assert_eq!(reply.answer, None);
    assert_eq!(reply.note, Some(SessionNote::TooLarge));
}

#[test]
fn a_factory_reset_says_which_write_failed_and_ends_the_sessions_all_the_same() {
    let mut rig = Rig::new();
    let mut phone = enrolled_phone(&mut rig, 1, "phone", 1);
    phone.hello(&mut rig).expect("a session");
    let held = NetworkHeld::Present { clears: false };
    assert_eq!(
        rig.sessions.factory_reset(held),
        Err(ResetFailed::Network(Refused::AtTheCeiling))
    );
    assert!(!rig.sessions.is_bound(conn(1)));
    assert_eq!(
        rig.sessions
            .reset_clients(Err(Refused::SupplyFalling), Epoch::new(1), Ok(())),
        Err(ResetFailed::Network(Refused::SupplyFalling))
    );
    assert_eq!(rig.enrolled(), 1, "nothing was freed");
    // The epoch advanced and the slots were not freed: they are nobody's.
    let failed = ResetFailed::Clients(Refused::Bus);
    assert_eq!(
        rig.sessions
            .reset_clients(Ok(()), Epoch::new(2), Err(failed)),
        Err(failed)
    );
    assert_eq!(rig.enrolled(), 0);
    assert_eq!(rig.sessions.keys().epoch.map(Epoch::get), Some(2));
}

#[test]
fn a_re_keyed_slots_old_session_is_allowed_nothing() {
    let mut rig = Rig::new();
    let mut phone = enrolled_phone(&mut rig, 1, "phone", 1);
    phone.hello(&mut rig).expect("a session");
    // The same key pairs again on another transport: the session ended.
    rig.connect(2);
    let mut again = Phone::on(2);
    again
        .pair(&mut rig, "phone", ClientKind::App, client_key(1))
        .expect("proceeds");
    let frame = phone.sealed(MessageType::WifiStatus, &[0xa0]);
    let (_, answer) = rig.send(&frame);
    assert_eq!(bare_code(&answer), ErrorCode::SessionExpired as u16);
}
