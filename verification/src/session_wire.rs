//! The client protocol's own encoders, decoders and checks, as the sessions
//! use them: what each answers, named where it takes pages to say.

use vstd::prelude::*;
use vstd::utf8::encode_utf8;
use vstd::string::*;

use crate::bytes::spliced;
use crate::idents::{ClientId, Conn, Epoch, Generation, ReqId};

verus! {

/// Why a frame was not read as a request.
#[derive(Debug, Clone, Copy, PartialEq, Eq, Structural)]
pub enum Unread {
    /// It names a message of the link between the two processors.
    LinkLocal,
    /// It names a message nobody allocated.
    Unknown,
    /// It does not read.
    Malformed,
}

/// Why a check failed: the code to answer, or silence, and whether it counts
/// against the connection.
#[derive(Debug, Clone, Copy, PartialEq, Eq, Structural)]
pub struct Fault {
    /// The code to answer with, or nothing where silence is the answer.
    pub code: Option<u16>,
    /// Whether the peer failed a check it should have passed.
    pub counts: bool,
}

/// The two refusals of a pairing's first message.
#[derive(Debug, Clone, Copy, PartialEq, Eq, Structural)]
pub enum PairRefusal {
    /// No window was open.
    WindowClosed,
    /// No free slot and no label to reclaim.
    TableFull,
}

impl PairRefusal {
    /// The number it goes out as.
    pub open spec fn spec_number(self) -> u8 {
        match self {
            PairRefusal::WindowClosed => 2,
            PairRefusal::TableFull => 4,
        }
    }
}

/// How an enrolment ended.
#[derive(Debug, Clone, Copy, PartialEq, Eq, Structural)]
pub enum Outcome {
    /// A free slot now holds the client's key.
    Enrolled(ClientId, Generation),
    /// A slot was keyed again.
    Reclaimed(ClientId, Generation),
    /// The window closed before the last message arrived.
    WindowClosed,
    /// The table filled before the last message arrived.
    TableFull,
    /// The slot could not be written, so nothing was enrolled.
    NotStored,
}

impl Outcome {
    /// The number it goes out as, and the slot and generation it names.
    pub open spec fn words(self) -> (u8, Option<(u32, u32)>) {
        match self {
            Outcome::Enrolled(id, generation) => (1, Some((id@, generation@))),
            Outcome::Reclaimed(id, generation) => (5, Some((id@, generation@))),
            Outcome::WindowClosed => (2, None),
            Outcome::TableFull => (4, None),
            Outcome::NotStored => (7, None),
        }
    }
}

/// What became of a command, as its acknowledgement says it.
#[derive(Debug, Clone, Copy, PartialEq, Eq, Structural)]
pub enum Command {
    /// It executed.
    Accepted,
    /// It was refused.
    Rejected,
    /// It executed before, under the same number.
    Duplicate,
    /// The selector or a lockout forbade it.
    Inhibited,
    /// The client's mask does not reach it.
    Unauthorised,
    /// The behaviour ran and the hardware was not written.
    Shadowed,
    /// It named a topology revision that has moved.
    StaleTopology,
    /// It named something that cannot take it.
    WrongTarget,
}

impl Command {
    /// The number it goes out as.
    pub open spec fn spec_number(self) -> u8 {
        match self {
            Command::Accepted => 1,
            Command::Rejected => 2,
            Command::Duplicate => 3,
            Command::Inhibited => 4,
            Command::Unauthorised => 5,
            Command::Shadowed => 6,
            Command::StaleTopology => 7,
            Command::WrongTarget => 8,
        }
    }
}

/// What became of a client's setting of the clock.
#[derive(Debug, Clone, Copy, PartialEq, Eq, Structural)]
pub enum TimeOutcome {
    /// The clock was set.
    Accepted,
    /// It was not.
    Rejected,
    /// The client may not set it.
    Unauthorised,
    /// Somebody must press the button.
    NeedsButton,
}

impl TimeOutcome {
    /// The number it goes out as.
    pub open spec fn spec_number(self) -> u8 {
        match self {
            TimeOutcome::Accepted => 1,
            TimeOutcome::Rejected => 2,
            TimeOutcome::Unauthorised => 3,
            TimeOutcome::NeedsButton => 4,
        }
    }
}

/// What a section write came to.
#[derive(Debug, Clone, Copy, PartialEq, Eq, Structural)]
pub enum SetConfig {
    /// It was written.
    Accepted,
    /// It named a version that has moved.
    StaleVersion,
    /// The section does not take it.
    Invalid,
    /// The client's mask does not reach it.
    Unauthorised,
    /// It is larger than the section may be.
    ExceedsCap,
    /// It is staged until it proves itself.
    Staged,
}

impl SetConfig {
    /// The number it goes out as.
    pub open spec fn spec_number(self) -> u8 {
        match self {
            SetConfig::Accepted => 1,
            SetConfig::StaleVersion => 2,
            SetConfig::Invalid => 3,
            SetConfig::Unauthorised => 4,
            SetConfig::ExceedsCap => 5,
            SetConfig::Staged => 9,
        }
    }
}

/// What the worker answers a vouch with.
#[derive(Debug, Clone, Copy, PartialEq, Eq)]
pub enum VouchAnswer {
    /// The tag the verifier checks, and what it covers.
    Vouched {
        /// The epoch.
        epoch: Epoch,
        /// The slot.
        client_id: ClientId,
        /// Its generation.
        generation: Generation,
        /// The tag.
        tag: [u8; 16],
    },
    /// The verifier's key is no key.
    BadVerifier,
}

impl VouchAnswer {
    /// What it says: the epoch, the slot, its generation and the tag.
    pub open spec fn words(self) -> Option<(u32, u32, u32, Seq<u8>)> {
        match self {
            VouchAnswer::Vouched { epoch, client_id, generation, tag } => Some(
                (epoch@, client_id@, generation@, tag@),
            ),
            VouchAnswer::BadVerifier => None,
        }
    }
}

/// A command as its operation body reads.
#[derive(Debug, PartialEq, Eq)]
pub struct CommandOperation {
    /// The number the client gave it.
    pub cmd_id: u32,
    /// What it asks for.
    pub kind: u16,
    /// Its arguments, as they arrived.
    pub args: Vec<u8>,
}

/// What a command's operation body says.
pub struct CommandModel {
    /// The number the client gave it.
    pub cmd_id: u32,
    /// What it asks for.
    pub kind: u16,
    /// Its arguments, as they arrived.
    pub args: Seq<u8>,
}

impl View for CommandOperation {
    type V = CommandModel;

    open spec fn view(&self) -> CommandModel {
        CommandModel { cmd_id: self.cmd_id, kind: self.kind, args: self.args@ }
    }
}

/// A section write as its operation body reads.
#[derive(Debug, PartialEq, Eq)]
pub struct SetConfigOperation {
    /// The section's number.
    pub section: u16,
    /// The version the client last read.
    pub expected_version: u32,
    /// The body, as it arrived.
    pub body: Vec<u8>,
}

/// `km43::ControllerChannel`, a session's keys and its window on the requests
/// it accepted.
#[verifier::external_type_specification]
#[verifier::external_body]
pub struct ExControllerChannel(km43::ControllerChannel);

/// `km43::EnrolAwaiting`, a pairing that waits for its last message.
#[verifier::external_type_specification]
#[verifier::external_body]
pub struct ExEnrolAwaiting(km43::EnrolAwaiting);

/// `km43::Enrolling`, a pairing whose last message opened.
#[verifier::external_type_specification]
#[verifier::external_body]
pub struct ExEnrolling(km43::Enrolling);

/// `km43::Prologue`, what both ends of a handshake hash first.
#[verifier::external_type_specification]
#[verifier::external_body]
pub struct ExPrologue(km43::Prologue);

/// The handle and the request number of a frame's envelope, or nothing when
/// its four elements do not read.
pub uninterp spec fn scalars_of(frame: Seq<u8>) -> Option<(u16, u32)>;

/// The message a frame names, or why it names none.
pub uninterp spec fn kind_of(frame: Seq<u8>) -> Result<u8, Unread>;

/// A bare error, addressed.
pub uninterp spec fn error_image(code: u16, session: u16, req_id: u32) -> Option<Seq<u8>>;

/// An error's body, before it is sealed.
pub uninterp spec fn error_body(code: u16) -> Option<Seq<u8>>;

/// The bytes of a prologue.
pub uninterp spec fn prologue_bytes(prologue: km43::Prologue) -> Seq<u8>;

/// Why a frame does not read as a pairing's first message, if it does not.
pub uninterp spec fn pair_reads(frame: Seq<u8>) -> Result<(), Fault>;

/// The client kind and the label a pairing's first message offers, opened
/// under a prologue, a device id and a printed secret.
pub uninterp spec fn pair_offer(
    frame: Seq<u8>,
    prologue: Seq<u8>,
    device_id: Seq<u8>,
    printed: Seq<u8>,
) -> Result<(u8, Seq<char>), Fault>;

/// The answer that refuses a pairing's first message under the label's key.
pub uninterp spec fn pair_refusal(
    frame: Seq<u8>,
    prologue: Seq<u8>,
    device_id: Seq<u8>,
    printed: Seq<u8>,
    outcome: u8,
) -> Option<Seq<u8>>;

/// The code a frame that does not read as a session's opening is refused
/// with.
pub uninterp spec fn hello_reads(frame: Seq<u8>) -> Result<(), u16>;

/// What a sealed frame opens into under a session's keys.
pub uninterp spec fn opening(channel: km43::ControllerChannel, frame: Seq<u8>) -> Result<
    Seq<u8>,
    Fault,
>;

/// A session's keys once a sealed frame has been opened under them.
pub uninterp spec fn opened_channel(
    channel: km43::ControllerChannel,
    frame: Seq<u8>,
) -> km43::ControllerChannel;

/// A body sealed under a session's keys, addressed.
pub uninterp spec fn sealing(
    channel: km43::ControllerChannel,
    kind: u8,
    session: u16,
    req_id: u32,
    body: Seq<u8>,
) -> Option<Seq<u8>>;

/// A session's keys once a body has been sealed under them.
pub uninterp spec fn sealed_channel(
    channel: km43::ControllerChannel,
    kind: u8,
    session: u16,
    req_id: u32,
    body: Seq<u8>,
) -> km43::ControllerChannel;

/// The code a vouch's body that does not read is refused with.
pub uninterp spec fn vouch_reads(payload: Seq<u8>) -> Result<(), u16>;

/// The time a client's write asks for, or the code it is refused with.
pub uninterp spec fn time_reads(operation: Seq<u8>) -> Result<u64, u16>;

/// The command an operation body says, or the code it is refused with.
pub uninterp spec fn command_reads(operation: Seq<u8>) -> Result<CommandModel, u16>;

/// The section, the expected version and the body of a section write, or the
/// code it is refused with.
pub uninterp spec fn set_config_reads(operation: Seq<u8>) -> Result<(u16, u32, Seq<u8>), u16>;

/// The section a read asks for, or the code it is refused with.
pub uninterp spec fn get_config_reads(payload: Seq<u8>) -> Result<u16, u16>;

/// The code a body that owes no key and does not read is refused with.
pub uninterp spec fn empty_reads(kind: u8, payload: Seq<u8>) -> Result<(), u16>;

/// Whether a scan asks for a refresh, or the code it is refused with.
pub uninterp spec fn scan_reads(payload: Seq<u8>) -> Result<bool, u16>;

/// A command's acknowledgement, before it is sealed.
pub uninterp spec fn command_ack(cmd_id: u32, outcome: u8, detail: Seq<char>) -> Option<Seq<u8>>;

/// A clock write's acknowledgement, before it is sealed.
pub uninterp spec fn time_ack(outcome: u8, at: Option<u64>) -> Option<Seq<u8>>;

/// A section write's acknowledgement, before it is sealed.
pub uninterp spec fn set_config_ack(section: u16, version: u32, outcome: u8) -> Option<Seq<u8>>;

/// A vouch's answer, before it is sealed.
pub uninterp spec fn vouch_answer(words: Option<(u32, u32, u32, Seq<u8>)>) -> Option<Seq<u8>>;

/// The head of an item: its kind in the three high bits, and the shortest form
/// of its argument.
pub open spec fn cbor_head(major: int, n: int) -> Seq<u8> {
    if n < 24 {
        seq![(major * 32 + n) as u8]
    } else if n < 0x100 {
        seq![(major * 32 + 24) as u8, n as u8]
    } else if n < 0x1_0000 {
        seq![(major * 32 + 25) as u8, (n / 0x100) as u8, (n % 0x100) as u8]
    } else {
        seq![
            (major * 32 + 26) as u8,
            (n / 0x100_0000) as u8,
            (n / 0x1_0000 % 0x100) as u8,
            (n / 0x100 % 0x100) as u8,
            (n % 0x100) as u8,
        ]
    }
}

/// A truth value.
pub open spec fn cbor_bool(value: bool) -> Seq<u8> {
    if value {
        seq![0xf5u8]
    } else {
        seq![0xf4u8]
    }
}

/// The pairs of a map: each key, which is below 24, and its value.
pub open spec fn cbor_pairs(pairs: Seq<(u8, Seq<u8>)>) -> Seq<u8>
    decreases pairs.len(),
{
    if pairs.len() == 0 {
        Seq::empty()
    } else {
        seq![pairs[0].0] + pairs[0].1 + cbor_pairs(pairs.skip(1))
    }
}

/// A discovery's answer: four elements, the last a map of eight keys. None for a
/// model of more than 64 bytes, or no epoch.
#[verifier::opaque]
pub open spec fn discovery_image(
    session: u16,
    req_id: u32,
    device_id: Seq<u8>,
    model: Seq<char>,
    provisioned: bool,
    pairing_open: bool,
    challenge: Seq<u8>,
    epoch: u32,
) -> Option<Seq<u8>> {
    let name = encode_utf8(model);
    if epoch == 0 || name.len() > 64 {
        None
    } else {
        Some(
            cbor_head(4, 4) + cbor_head(0, 0x80) + cbor_head(0, session as int) + cbor_head(
                0,
                req_id as int,
            ) + cbor_head(5, 8) + cbor_pairs(
                seq![
                    (1u8, cbor_head(0, 1)),
                    (2u8, cbor_head(0, 0)),
                    (3u8, cbor_head(2, device_id.len() as int) + device_id),
                    (4u8, cbor_head(3, name.len() as int) + name),
                    (5u8, cbor_bool(provisioned)),
                    (6u8, cbor_bool(pairing_open)),
                    (7u8, cbor_head(2, challenge.len() as int) + challenge),
                    (8u8, cbor_head(0, epoch as int)),
                ],
            ),
        )
    }
}

/// The key a pairing's last message proved.
pub uninterp spec fn enrolling_client(enrolling: km43::Enrolling) -> Seq<u8>;

/// A pairing's last answer, sealed under its own keys.
pub uninterp spec fn enrol_answer(
    enrolling: km43::Enrolling,
    outcome: (u8, Option<(u32, u32)>),
    next_challenge: Seq<u8>,
) -> Option<Seq<u8>>;

/// Whether an image was written at the front of a buffer: it is when it exists
/// and fits, and nothing is when it does not.
pub open spec fn wrote(
    r: Option<usize>,
    before: Seq<u8>,
    after: Seq<u8>,
    image: Option<Seq<u8>>,
) -> bool {
    &&& after.len() == before.len()
    &&& match image {
        Some(bytes) if bytes.len() <= before.len() => {
            &&& r == Some(bytes.len() as usize)
            &&& after == spliced(before, 0, bytes)
        },
        _ => r is None,
    }
}

/// Whether an encoding came out as its name says.
pub open spec fn encoded(r: Option<Vec<u8>>, image: Option<Seq<u8>>) -> bool {
    match r {
        Some(bytes) => image == Some(bytes@),
        None => image is None,
    }
}

/// What a frame opens into that is dropped for its number, unanswered and
/// uncounted.
pub open spec fn dropped() -> Result<Seq<u8>, Fault> {
    Err(Fault { code: None, counts: false })
}

/// Read a frame's envelope: `km43::LinkEnvelope::decode`.
///
/// Trusted: the handle and the request number, or nothing, are a function of
/// the bytes, named [`scalars_of`].
#[verifier::external_body]
pub(crate) fn read_scalars(frame: &[u8]) -> (r: Option<(u16, u32)>)
    ensures
        r == scalars_of(frame@),
{
    match km43::LinkEnvelope::decode(frame) {
        Ok(envelope) => Some((u16::from(envelope.session()), envelope.req_id().0)),
        Err(_) => None,
    }
}

/// Read which message a frame is: `km43::Envelope::decode`.
///
/// Trusted: the message's number, or which of three ways it fails, is a
/// function of the bytes, named [`kind_of`].
#[verifier::external_body]
pub(crate) fn read_kind(frame: &[u8]) -> (r: Result<u8, Unread>)
    ensures
        r == kind_of(frame@),
{
    match km43::Envelope::decode(frame) {
        Ok(envelope) => Ok(envelope.header().kind as u8),
        Err(km43::EnvelopeError::LinkLocalType(_)) => Err(Unread::LinkLocal),
        Err(km43::EnvelopeError::UnknownType(_)) => Err(Unread::Unknown),
        Err(km43::EnvelopeError::WrongLength) => Err(Unread::Malformed),
        Err(km43::EnvelopeError::Cbor(_)) => Err(Unread::Malformed),
    }
}

/// Write a bare error: `km43::ErrorBody::write`.
///
/// Trusted: the bytes are a function of the code and the address, named
/// [`error_image`]; they are written at the front of `dst` when they fit it.
#[verifier::external_body]
pub(crate) fn write_error(code: u16, session: u16, req_id: ReqId, dst: &mut [u8]) -> (r: Option<
    usize,
>)
    ensures
        wrote(r, old(dst)@, final(dst)@, error_image(code, session, req_id.0)),
{
    let header = km43::Header {
        kind: km43::MessageType::ErrorResponse,
        session: km43::SessionId::from(session),
        req_id: km43::ReqId(req_id.0),
    };
    km43::ErrorBody { code: km43::Incoming::from(code), detail: "" }.write(header, dst).ok()
}

/// Encode an error's body: `km43::ErrorBody::encode` into sixteen bytes.
///
/// Trusted: the bytes are a function of the code, named [`error_body`].
#[verifier::external_body]
pub(crate) fn encode_error(code: u16) -> (r: Option<Vec<u8>>)
    ensures
        encoded(r, error_body(code)),
{
    let mut body = [0u8; 16];
    let written = km43::ErrorBody { code: km43::Incoming::from(code), detail: "" }.encode(
        &mut body,
    );
    written.ok().map(|len| body[..len].to_vec())
}

/// The number `x` in `n` bytes, highest first.
pub open spec fn be(x: nat, n: nat) -> Seq<u8>
    decreases n,
{
    if n == 0 {
        Seq::empty()
    } else {
        be(x / 256, (n - 1) as nat).push((x % 256) as u8)
    }
}

/// The sixteen letters a prologue starts with.
pub open spec fn prologue_label() -> Seq<u8> {
    seq![
        107u8,
        109u8,
        52u8,
        51u8,
        47u8,
        118u8,
        49u8,
        47u8,
        112u8,
        114u8,
        111u8,
        108u8,
        111u8,
        103u8,
        117u8,
        101u8,
    ]
}

/// The prologue of a connection: the label, the one suite there is, the
/// version, the device id, the epoch, the challenge and the handle.
pub open spec fn prologue_of(
    device_id: Seq<u8>,
    epoch: u32,
    challenge: Seq<u8>,
    handle: u16,
) -> Seq<u8> {
    prologue_label() + seq![1u8, 1u8, 0u8] + device_id + be(epoch as nat, 4) + challenge + be(
        handle as nat,
        2,
    )
}

/// Build a connection's prologue: `km43::Prologue::new`.
///
/// Trusted: its bytes are the fields joined in their order, numbers highest
/// byte first, as [`prologue_of`] states.
#[verifier::external_body]
pub(crate) fn build_prologue(
    device_id: [u8; 16],
    epoch: Epoch,
    challenge: &[u8; 16],
    conn: Conn,
) -> (r: km43::Prologue)
    ensures
        prologue_bytes(r) == prologue_of(device_id@, epoch@, challenge@, conn@),
{
    km43::Prologue::new(
        &km43::PrologueFields {
            suite: km43::Suite::X25519ChachapolySha256,
            version: km43::Version::V1_0,
            device_id: km43::DeviceId::new(device_id),
            epoch: km43::Epoch::new(epoch.get()).unwrap_or(km43::Epoch::FIRST),
            challenge,
            handle: km43::SessionId::from(conn.get()),
        },
    )
}

/// Read a pairing's first message: `km43::PairArrival::decode`.
///
/// Trusted: whether it reads, and its refusal and whether that counts, are a
/// function of the bytes, named [`pair_reads`].
#[verifier::external_body]
pub(crate) fn read_pair(frame: &[u8]) -> (r: Result<(), Fault>)
    ensures
        r == pair_reads(frame@),
{
    let read = km43::Envelope::decode(frame).map_err(km43::PairError::from).and_then(
        km43::PairArrival::decode,
    );
    match read {
        Ok(_) => Ok(()),
        Err(why) => Err(Fault { code: why.refusal().map(|code| code.code()), counts: why.counts() }),
    }
}

/// Open a pairing's first message under the label's key:
/// `km43::PairArrival::open`.
///
/// Trusted: the kind and the label it offers, or its refusal, are a function
/// of the message, the prologue and the label, named [`pair_offer`].
#[verifier::external_body]
pub(crate) fn open_pair(frame: &[u8], prologue: &km43::Prologue, label: &km43::Label) -> (r: Result<
    (u8, String),
    Fault,
>)
    ensures
        match r {
            Ok(offer) => pair_offer(
                frame@,
                prologue_bytes(*prologue),
                crate::secret::label_words(*label).0,
                crate::secret::label_words(*label).1,
            ) == Ok::<(u8, Seq<char>), Fault>((offer.0, offer.1@)),
            Err(why) => pair_offer(
                frame@,
                prologue_bytes(*prologue),
                crate::secret::label_words(*label).0,
                crate::secret::label_words(*label).1,
            ) == Err::<(u8, Seq<char>), Fault>(why),
        },
{
    let mut plain = [0u8; km43::MAX_PAIR_OFFER];
    let opened = km43::Envelope::decode(frame).map_err(km43::PairError::from).and_then(
        km43::PairArrival::decode,
    ).and_then(|arrival| arrival.open(prologue, &label.pair_psk(), &mut plain));
    match opened {
        Ok(offered) => Ok((offered.offer().client_kind as u8, offered.offer().label.to_string())),
        Err(why) => Err(Fault { code: why.refusal().map(|code| code.code()), counts: why.counts() }),
    }
}

/// Refuse a pairing's first message under the label's refusal key:
/// `km43::Offered::refuse`.
///
/// Trusted: the bytes are a function of the message, the prologue, the label
/// and the refusal, named [`pair_refusal`]; they are written at the front of
/// `dst` when they fit it.
#[verifier::external_body]
pub(crate) fn refuse_pair(
    frame: &[u8],
    prologue: &km43::Prologue,
    label: &km43::Label,
    refusal: PairRefusal,
    dst: &mut [u8],
) -> (r: Option<usize>)
    ensures
        wrote(
            r,
            old(dst)@,
            final(dst)@,
            pair_refusal(
                frame@,
                prologue_bytes(*prologue),
                crate::secret::label_words(*label).0,
                crate::secret::label_words(*label).1,
                refusal.spec_number(),
            ),
        ),
{
    let mut plain = [0u8; km43::MAX_PAIR_OFFER];
    let refusal = match refusal {
        PairRefusal::WindowClosed => km43::PairRefusal::WindowClosed,
        PairRefusal::TableFull => km43::PairRefusal::TableFull,
    };
    let arrival = km43::PairArrival::decode(km43::Envelope::decode(frame).ok()?).ok()?;
    let offered = arrival.open(prologue, &label.pair_psk(), &mut plain).ok()?;
    offered.refuse(refusal, &label.refusal_key(), dst).ok()
}

/// Read a session's opening: `km43::HelloArrival::decode`.
///
/// Trusted: whether it reads, and its refusal, are a function of the bytes,
/// named [`hello_reads`].
#[verifier::external_body]
pub(crate) fn read_hello(frame: &[u8]) -> (r: Result<(), u16>)
    ensures
        r == hello_reads(frame@),
{
    let read = km43::Envelope::decode(frame).map_err(km43::HelloError::from).and_then(
        km43::HelloArrival::decode,
    );
    match read {
        Ok(_) => Ok(()),
        Err(why) => Err(why.refusal().code()),
    }
}

/// Open a sealed frame under a session's keys: `km43::Sealed::open`.
///
/// Trusted: the body, or the refusal and whether it counts, is a function of
/// the keys and the frame, named [`opening`], and so are the keys after it,
/// named [`opened_channel`]; a frame that does not open leaves the keys as
/// they were. One that opened is dropped for its number from then on, and so is
/// every frame that was dropped before.
#[verifier::external_body]
pub(crate) fn open_sealed(channel: &mut km43::ControllerChannel, frame: &[u8]) -> (r: Result<
    Vec<u8>,
    Fault,
>)
    ensures
        match r {
            Ok(body) => opening(*old(channel), frame@) == Ok::<Seq<u8>, Fault>(body@),
            Err(why) => opening(*old(channel), frame@) == Err::<Seq<u8>, Fault>(why),
        },
        *final(channel) == opened_channel(*old(channel), frame@),
        r is Err ==> *final(channel) == *old(channel),
        r is Ok ==> opening(*final(channel), frame@) == dropped(),
        forall|other: Seq<u8>|
            opening(*old(channel), other) == dropped() ==> #[trigger] opening(
                *final(channel),
                other,
            ) == dropped(),
{
    let mut plain = [0u8; km43::MAX_PAYLOAD];
    let opened = match km43::Envelope::decode(frame) {
        Ok(envelope) => km43::Sealed::decode(envelope).and_then(
            |sealed| sealed.open(&mut channel.rx, &mut plain),
        ),
        Err(why) => return Err(Fault { code: Some(why.refusal().code()), counts: false }),
    };
    match opened {
        Ok(opened) => Ok(opened.inner().to_vec()),
        Err(why) => Err(Fault { code: why.refusal().map(|code| code.code()), counts: why.counts() }),
    }
}

/// Seal a body under a session's keys: `km43::ControllerSealer::seal`.
///
/// Trusted: the frame is a function of the keys, the message, the address and
/// the body, named [`sealing`], written at the front of `dst` when it fits;
/// the keys after it are named [`sealed_channel`]. What a frame opens into does
/// not change: requests have keys and a window of their own.
#[verifier::external_body]
pub(crate) fn seal(
    channel: &mut km43::ControllerChannel,
    kind: u8,
    conn: Conn,
    req_id: ReqId,
    body: &[u8],
    dst: &mut [u8],
) -> (r: Option<usize>)
    ensures
        wrote(
            r,
            old(dst)@,
            final(dst)@,
            sealing(*old(channel), kind, conn@, req_id.0, body@),
        ),
        *final(channel) == sealed_channel(*old(channel), kind, conn@, req_id.0, body@),
        forall|frame: Seq<u8>| #[trigger]
            opening(*final(channel), frame) == opening(*old(channel), frame),
{
    let header = km43::Header {
        kind: km43::MessageType::try_from(kind).ok()?,
        session: km43::SessionId::from(conn.get()),
        req_id: km43::ReqId(req_id.0),
    };
    channel.tx.seal(header, body, dst).ok()
}

/// Read a vouch's body: `km43::VouchRequest::decode`.
///
/// Trusted: whether it reads, and its refusal, are a function of the bytes,
/// named [`vouch_reads`].
#[verifier::external_body]
pub(crate) fn read_vouch(payload: &[u8]) -> (r: Result<(), u16>)
    ensures
        r == vouch_reads(payload@),
{
    match km43::VouchRequest::decode(payload) {
        Ok(_) => Ok(()),
        Err(why) => Err(why.refusal().code()),
    }
}

/// Read a clock write: `km43::TimeOperation::decode`.
///
/// Trusted: the time, or its refusal, is a function of the bytes, named
/// [`time_reads`].
#[verifier::external_body]
pub(crate) fn read_time(operation: &[u8]) -> (r: Result<u64, u16>)
    ensures
        r == time_reads(operation@),
{
    match km43::TimeOperation::decode(operation) {
        Ok(operation) => Ok(operation.at),
        Err(why) => Err(why.refusal().code()),
    }
}

/// Read a command: `km43::CommandOperation::decode`.
///
/// Trusted: the command, or its refusal, is a function of the bytes, named
/// [`command_reads`].
#[verifier::external_body]
pub(crate) fn read_command(operation: &[u8]) -> (r: Result<CommandOperation, u16>)
    ensures
        match r {
            Ok(command) => command_reads(operation@) == Ok::<CommandModel, u16>(command@),
            Err(code) => command_reads(operation@) == Err::<CommandModel, u16>(code),
        },
{
    match km43::CommandOperation::decode(operation) {
        Ok(read) => Ok(
            CommandOperation {
                cmd_id: read.cmd_id,
                kind: read.kind as u16,
                args: read.args.to_vec(),
            },
        ),
        Err(why) => Err(why.refusal().code()),
    }
}

/// Read a section write: `km43::SetConfigOperation::decode`.
///
/// Trusted: the section, the version and the body, or its refusal, are a
/// function of the bytes, named [`set_config_reads`].
#[verifier::external_body]
pub(crate) fn read_set_config(operation: &[u8]) -> (r: Result<SetConfigOperation, u16>)
    ensures
        match r {
            Ok(read) => set_config_reads(operation@) == Ok::<(u16, u32, Seq<u8>), u16>(
                (read.section, read.expected_version, read.body@),
            ),
            Err(code) => set_config_reads(operation@) == Err::<(u16, u32, Seq<u8>), u16>(code),
        },
{
    match km43::SetConfigOperation::decode(operation) {
        Ok(read) => Ok(
            SetConfigOperation {
                section: read.section as u16,
                expected_version: read.expected_version,
                body: read.body.to_vec(),
            },
        ),
        Err(why) => Err(why.refusal().code()),
    }
}

/// Read a section read: `km43::GetConfigRequest::decode`.
///
/// Trusted: the section, or its refusal, is a function of the bytes, named
/// [`get_config_reads`].
#[verifier::external_body]
pub(crate) fn read_get_config(payload: &[u8]) -> (r: Result<u16, u16>)
    ensures
        r == get_config_reads(payload@),
{
    match km43::GetConfigRequest::decode(payload) {
        Ok(read) => Ok(read.section as u16),
        Err(why) => Err(why.refusal().code()),
    }
}

/// Read a body that owes no key: `km43::EmptyBody::decode`.
///
/// Trusted: whether it reads, and its refusal, are a function of the message
/// and the bytes, named [`empty_reads`].
#[verifier::external_body]
pub(crate) fn read_empty(kind: u8, payload: &[u8]) -> (r: Result<(), u16>)
    ensures
        r == empty_reads(kind, payload@),
{
    let kind = km43::MessageType::try_from(kind).unwrap_or(km43::MessageType::ErrorResponse);
    match km43::EmptyBody::decode(kind, payload) {
        Ok(_) => Ok(()),
        Err(why) => Err(why.refusal().code()),
    }
}

/// Read a scan: `km43::ScanRequest::decode`.
///
/// Trusted: whether it asks for a refresh, or its refusal, is a function of
/// the bytes, named [`scan_reads`].
#[verifier::external_body]
pub(crate) fn read_scan(payload: &[u8]) -> (r: Result<bool, u16>)
    ensures
        r == scan_reads(payload@),
{
    match km43::ScanRequest::decode(payload) {
        Ok(read) => Ok(read.refresh),
        Err(why) => Err(why.refusal().code()),
    }
}

/// Encode a command's acknowledgement: `km43::CommandAck::encode`.
///
/// Trusted: the bytes are a function of the values, named [`command_ack`].
#[verifier::external_body]
pub(crate) fn encode_command_ack(cmd_id: u32, outcome: Command, detail: &str) -> (r: Option<
    Vec<u8>,
>)
    ensures
        encoded(r, command_ack(cmd_id, outcome.spec_number(), detail@)),
{
    let outcome = match outcome {
        Command::Accepted => km43::Command::Accepted,
        Command::Rejected => km43::Command::Rejected,
        Command::Duplicate => km43::Command::Duplicate,
        Command::Inhibited => km43::Command::Inhibited,
        Command::Unauthorised => km43::Command::Unauthorised,
        Command::Shadowed => km43::Command::Shadowed,
        Command::StaleTopology => km43::Command::StaleTopology,
        Command::WrongTarget => km43::Command::WrongTarget,
    };
    let mut body = [0u8; km43::MAX_COMMAND_ACK_BYTES];
    let written = km43::CommandAck { cmd_id, outcome, detail }.encode(&mut body);
    written.ok().map(|len| body[..len].to_vec())
}

/// Encode a clock write's acknowledgement: `km43::TimeAck::new`, then
/// `km43::TimeAck::encode`.
///
/// Trusted: the bytes are a function of the values, named [`time_ack`].
#[verifier::external_body]
pub(crate) fn encode_time_ack(outcome: TimeOutcome, at: Option<u64>) -> (r: Option<Vec<u8>>)
    ensures
        encoded(r, time_ack(outcome.spec_number(), at)),
{
    let outcome = match outcome {
        TimeOutcome::Accepted => km43::Time::Accepted,
        TimeOutcome::Rejected => km43::Time::Rejected,
        TimeOutcome::Unauthorised => km43::Time::Unauthorised,
        TimeOutcome::NeedsButton => km43::Time::NeedsButton,
    };
    let mut body = [0u8; km43::MAX_TIME_ACK_BYTES];
    let written = km43::TimeAck::new(outcome, at).and_then(|ack| ack.encode(&mut body));
    written.ok().map(|len| body[..len].to_vec())
}

/// Encode a section write's acknowledgement: `km43::SetConfigAck::encode`.
///
/// Trusted: the bytes are a function of the values, named [`set_config_ack`];
/// a section nobody allocated is not encoded.
#[verifier::external_body]
pub(crate) fn encode_set_config_ack(section: u16, version: u32, outcome: SetConfig) -> (r: Option<
    Vec<u8>,
>)
    ensures
        encoded(r, set_config_ack(section, version, outcome.spec_number())),
{
    let outcome = match outcome {
        SetConfig::Accepted => km43::SetConfig::Accepted,
        SetConfig::StaleVersion => km43::SetConfig::StaleVersion,
        SetConfig::Invalid => km43::SetConfig::Invalid,
        SetConfig::Unauthorised => km43::SetConfig::Unauthorised,
        SetConfig::ExceedsCap => km43::SetConfig::ExceedsCap,
        SetConfig::Staged => km43::SetConfig::Staged,
    };
    let section = km43::ConfigSection::try_from(section).ok()?;
    let mut body = [0u8; km43::MAX_SET_CONFIG_ACK_BYTES];
    let written = km43::SetConfigAck { section, version, outcome }.encode(&mut body);
    written.ok().map(|len| body[..len].to_vec())
}

/// Encode a vouch's answer: `km43::VouchAnswer::encode`.
///
/// Trusted: the bytes are a function of the values, named [`vouch_answer`].
#[verifier::external_body]
pub(crate) fn encode_vouch(answer: &VouchAnswer) -> (r: Option<Vec<u8>>)
    ensures
        encoded(r, vouch_answer(answer.words())),
{
    let answer = match answer {
        VouchAnswer::Vouched { epoch, client_id, generation, tag } => km43::VouchAnswer::Vouched {
            epoch: km43::Epoch::new(epoch.get())?,
            client_id: km43::ClientId::new(client_id.get())?,
            generation: km43::Generation::new(generation.get())?,
            tag: *tag,
        },
        VouchAnswer::BadVerifier => km43::VouchAnswer::BadVerifier,
    };
    let mut body = [0u8; 39];
    answer.encode(&mut body).ok().map(|len| body[..len].to_vec())
}

/// Write a discovery's answer: `km43::Discovery::write`.
///
/// Trusted: the bytes are the envelope of a `Discover` answer, message 0x80 of
/// protocol 1.0, with the values under their eight keys, as [`discovery_image`]
/// spells them out; they are written at the front of `dst` when they fit.
#[verifier::external_body]
pub(crate) fn write_discovery(
    conn: Conn,
    req_id: ReqId,
    device_id: [u8; 16],
    model: &str,
    flags: (bool, bool),
    challenge: [u8; 16],
    epoch: Epoch,
    dst: &mut [u8],
) -> (r: Option<usize>)
    ensures
        wrote(
            r,
            old(dst)@,
            final(dst)@,
            discovery_image(
                conn@,
                req_id.0,
                device_id@,
                model@,
                flags.0,
                flags.1,
                challenge@,
                epoch@,
            ),
        ),
{
    let kind = km43::MessageType::DiscoverResponse;
    let session = km43::SessionId::from(conn.get());
    let header = km43::Header { kind, session, req_id: km43::ReqId(req_id.0) };
    let (version, epoch) = (km43::Version::V1_0, km43::Epoch::new(epoch.get())?);
    let (provisioned, pairing_open) = flags;
    km43::Discovery { version, device_id, model, provisioned, pairing_open, challenge, epoch }
        .write(header, dst).ok()
}

/// The key a pairing's last message proved: `km43::Enrolling::client`.
///
/// Trusted: it is the key the message carried, named [`enrolling_client`].
#[verifier::external_body]
pub(crate) fn client_of(enrolling: &km43::Enrolling) -> (r: [u8; 32])
    ensures
        r@ == enrolling_client(*enrolling),
{
    *enrolling.client().as_bytes()
}

/// Seal a pairing's last answer: `km43::Enrolling::answer`.
///
/// Trusted: the bytes are a function of the pairing, the outcome and the
/// challenge, named [`enrol_answer`]; they are written at the front of `dst`
/// when they fit.
#[verifier::external_body]
pub(crate) fn answer_enrol(
    enrolling: km43::Enrolling,
    outcome: Outcome,
    next_challenge: [u8; 16],
    dst: &mut [u8],
) -> (r: Option<usize>)
    ensures
        wrote(
            r,
            old(dst)@,
            final(dst)@,
            enrol_answer(enrolling, outcome.words(), next_challenge@),
        ),
{
    let slot = |id: ClientId, generation: Generation| {
        Some((km43::ClientId::new(id.get())?, km43::Generation::new(generation.get())?))
    };
    let outcome = match outcome {
        Outcome::Enrolled(id, of) => slot(id, of).map(|s| km43::Outcome::Enrolled(s.0, s.1))?,
        Outcome::Reclaimed(id, of) => slot(id, of).map(|s| km43::Outcome::Reclaimed(s.0, s.1))?,
        Outcome::WindowClosed => km43::Outcome::WindowClosed,
        Outcome::TableFull => km43::Outcome::TableFull,
        Outcome::NotStored => km43::Outcome::NotStored,
    };
    enrolling.answer(&km43::EnrolAnswer { outcome, next_challenge }, dst).ok()
}

} // verus!
