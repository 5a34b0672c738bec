//! What a step over the sessions asks for before it can go on, and what it
//! says when it can.

use vstd::prelude::*;

use crate::bytes::spliced;
use crate::clients::{keyed, Place, Role};
use crate::idents::ClientId;
use crate::request::{Asked, InFlight, InFlightModel, Reservation, ReservationModel};
use crate::session_state::{Addressed, Close, Offer, OfferModel, Reply, SessionNote};
use crate::session_wire::{prologue_bytes, SetConfigOperation};
use crate::tick::Tick;

verus! {

/// The session a request opened on: an answer that takes its time goes to it
/// and to no later one on the same handle.
#[derive(Debug, Clone, Copy, PartialEq, Eq, Structural)]
pub struct Asker {
    /// Where the answer goes.
    pub to: Addressed,
    /// The binding that asked.
    pub serial: u32,
}

/// A pairing's second message wants a fresh secret.
pub struct PairAsk {
    /// Where the answer goes.
    pub to: Addressed,
    /// The first message.
    pub frame: Vec<u8>,
    /// What both ends hash.
    pub prologue: km43::Prologue,
    /// What it offered.
    pub offer: Offer,
    /// When it was read.
    pub since: Tick,
}

/// A session's opening wants the slot whose key its tag is under.
pub struct MatchAsk {
    /// Where the answer goes.
    pub to: Addressed,
    /// The message.
    pub frame: Vec<u8>,
    /// What both ends hash.
    pub prologue: km43::Prologue,
    /// The occupied slots and their tag keys, lowest first.
    pub keys: Vec<(u32, [u8; 32])>,
}

/// A session's opening wants a fresh secret.
pub struct HelloAsk {
    /// Where the answer goes.
    pub to: Addressed,
    /// The message.
    pub frame: Vec<u8>,
    /// What both ends hash.
    pub prologue: km43::Prologue,
    /// The slot whose key its tag is under.
    pub slot: ClientId,
}

/// A pairing whose last message opened wants a challenge for its answer.
pub struct EnrolAsk {
    /// Where the answer goes.
    pub to: Addressed,
    /// The handshake, to answer.
    pub enrolling: km43::Enrolling,
    /// The key the client's opening messages will be tagged under.
    pub tag_key: [u8; 32],
    /// What was offered.
    pub offer: Offer,
}

/// A pairing's slot is to be written to the part.
pub struct StoreAsk {
    /// Where the answer goes.
    pub to: Addressed,
    /// The handshake, to answer.
    pub enrolling: km43::Enrolling,
    /// The challenge the answer carries.
    pub next_challenge: [u8; 16],
    /// How the slot was chosen.
    pub place: Place,
    /// The slot.
    pub id: ClientId,
    /// What it may do.
    pub role: Role,
    /// The client's public key.
    pub client: [u8; 32],
    /// The key its opening messages will be tagged under.
    pub tag_key: [u8; 32],
    /// What was offered.
    pub offer: Offer,
}

/// A command wants the dedup table's word.
pub struct ReserveAsk {
    /// The session that asked.
    pub of: Asker,
    /// The command.
    pub asked: Asked,
}

/// A retry in flight is to be discarded and run again.
pub struct AgainAsk {
    /// The session that asked.
    pub of: Asker,
    /// The retry.
    pub retry: InFlight,
}

/// A command ran, and its entry is to be discarded.
pub struct FinishAsk {
    /// The session that asked.
    pub of: Asker,
    /// The command.
    pub reservation: Reservation,
}

/// A section is to be written.
pub struct SetAsk {
    /// The session that asked.
    pub of: Asker,
    /// What to write.
    pub operation: SetConfigOperation,
}

/// A client may not write a section, and is told the version it has.
#[derive(Debug, Clone, Copy, PartialEq, Eq, Structural)]
pub struct VersionAsk {
    /// The session that asked.
    pub of: Asker,
    /// The section.
    pub section: u16,
}

/// A section is to be read.
#[derive(Debug, Clone, Copy, PartialEq, Eq, Structural)]
pub struct ReadAsk {
    /// The session that asked.
    pub of: Asker,
    /// The section.
    pub section: u16,
}

/// What a refresh of the scan is decided by.
#[derive(Debug, Clone, Copy, PartialEq, Eq, Structural)]
pub struct Refresh {
    /// Whether the client may move the radio off its network.
    pub authorised: bool,
    /// Whether there is a network section.
    pub provisioned: bool,
    /// Whether the link's two ends agree.
    pub agreed: bool,
}

/// What of the radio is asked for.
#[derive(Debug, Clone, Copy, PartialEq, Eq, Structural)]
pub enum WifiAsked {
    /// The list, refreshed first where that was asked for.
    Scan(Option<Refresh>),
    /// The report, under this version of the network section.
    Status(u32),
}

/// The radio is to be read.
#[derive(Debug, Clone, Copy, PartialEq, Eq, Structural)]
pub struct WifiAsk {
    /// The session that asked.
    pub of: Asker,
    /// What of it.
    pub asked: WifiAsked,
}

/// What a step wants before it can go on.
pub enum Ask {
    /// A challenge, for [`discover_drawn`](crate::session::Sessions::discover_drawn).
    Challenge(Addressed),
    /// A secret, for [`pair_drawn`](crate::session::Sessions::pair_drawn).
    PairSecret(PairAsk),
    /// A slot, for [`hello_matched`](crate::session::Sessions::hello_matched).
    Match(MatchAsk),
    /// A secret, for [`hello_drawn`](crate::session::Sessions::hello_drawn).
    HelloSecret(HelloAsk),
    /// A challenge, for [`enrol_drawn`](crate::session::Sessions::enrol_drawn).
    EnrolChallenge(EnrolAsk),
    /// A slot written, for [`enrol_stored`](crate::session::Sessions::enrol_stored).
    Store(StoreAsk),
    /// The dedup table's word, for
    /// [`command_reserved`](crate::session::Sessions::command_reserved).
    Reserve(ReserveAsk),
    /// Its word again, for [`command_again`](crate::session::Sessions::command_again).
    Again(AgainAsk),
    /// An entry discarded, for
    /// [`command_finished`](crate::session::Sessions::command_finished).
    Finish(FinishAsk),
    /// A section written, for [`section_set`](crate::session::Sessions::section_set).
    SetSection(SetAsk),
    /// A section's version, for
    /// [`section_refused`](crate::session::Sessions::section_refused).
    SectionVersion(VersionAsk),
    /// A section read, for [`section_read`](crate::session::Sessions::section_read).
    ReadSection(ReadAsk),
    /// The radio read, for [`wifi_read`](crate::session::Sessions::wifi_read).
    Wifi(WifiAsk),
}

/// What a step wants, in the mathematical sense.
#[verifier::ext_equal]
pub enum AskModel {
    /// A challenge.
    Challenge(Addressed),
    /// A secret for a pairing.
    PairSecret {
        /// Where the answer goes.
        to: Addressed,
        /// The first message.
        frame: Seq<u8>,
        /// The bytes both ends hash.
        prologue: Seq<u8>,
        /// What was offered.
        offer: OfferModel,
        /// When.
        since: Tick,
    },
    /// A slot.
    Match {
        /// Where the answer goes.
        to: Addressed,
        /// The message.
        frame: Seq<u8>,
        /// The bytes both ends hash.
        prologue: Seq<u8>,
        /// The occupied slots and their tag keys.
        keys: Seq<(u32, Seq<u8>)>,
    },
    /// A secret for a session.
    HelloSecret {
        /// Where the answer goes.
        to: Addressed,
        /// The message.
        frame: Seq<u8>,
        /// The bytes both ends hash.
        prologue: Seq<u8>,
        /// The slot.
        slot: ClientId,
    },
    /// A challenge for a pairing's answer.
    EnrolChallenge {
        /// Where the answer goes.
        to: Addressed,
        /// The handshake.
        enrolling: km43::Enrolling,
        /// The tag key.
        tag_key: [u8; 32],
        /// What was offered.
        offer: OfferModel,
    },
    /// A slot written.
    Store(StoreModel),
    /// The dedup table's word.
    Reserve {
        /// The session that asked.
        of: Asker,
        /// The command.
        command: ReservationModel,
        /// Its operation body.
        operation: Seq<u8>,
    },
    /// Its word again.
    Again {
        /// The session that asked.
        of: Asker,
        /// The retry.
        retry: InFlightModel,
    },
    /// An entry discarded.
    Finish {
        /// The session that asked.
        of: Asker,
        /// The command.
        reservation: ReservationModel,
    },
    /// A section written.
    SetSection {
        /// The session that asked.
        of: Asker,
        /// The section.
        section: u16,
        /// The version the client last read.
        expected_version: u32,
        /// The body.
        body: Seq<u8>,
    },
    /// A section's version.
    SectionVersion(VersionAsk),
    /// A section read.
    ReadSection(ReadAsk),
    /// The radio read.
    Wifi(WifiAsk),
}

/// A slot to be written, in the mathematical sense.
#[verifier::ext_equal]
pub struct StoreModel {
    /// Where the answer goes.
    pub to: Addressed,
    /// The handshake.
    pub enrolling: km43::Enrolling,
    /// The challenge the answer carries.
    pub next_challenge: [u8; 16],
    /// How the slot was chosen.
    pub place: Place,
    /// The slot.
    pub id: ClientId,
    /// What it may do.
    pub role: Role,
    /// The client's public key.
    pub client: Seq<u8>,
    /// The tag key.
    pub tag_key: [u8; 32],
    /// What was offered.
    pub offer: OfferModel,
}

impl View for StoreAsk {
    type V = StoreModel;

    open spec fn view(&self) -> StoreModel {
        StoreModel {
            to: self.to,
            enrolling: self.enrolling,
            next_challenge: self.next_challenge,
            place: self.place,
            id: self.id,
            role: self.role,
            client: self.client@,
            tag_key: self.tag_key,
            offer: self.offer@,
        }
    }
}

/// The keys of a list, as they are read.
pub open spec fn keys_of(keys: Seq<(u32, [u8; 32])>) -> Seq<(u32, Seq<u8>)> {
    keys.map_values(|key: (u32, [u8; 32])| (key.0, key.1@))
}

/// A list is the one its keys say.
pub proof fn lemma_keys_of(keys: Seq<(u32, [u8; 32])>, meant: Seq<(u32, Seq<u8>)>)
    requires
        keyed(keys, meant),
    ensures
        keys_of(keys) == meant,
{
    assert(keys_of(keys) =~= meant);
}

impl View for Ask {
    type V = AskModel;

    open spec fn view(&self) -> AskModel {
        match self {
            Ask::Challenge(to) => AskModel::Challenge(*to),
            Ask::PairSecret(ask) => AskModel::PairSecret {
                to: ask.to,
                frame: ask.frame@,
                prologue: prologue_bytes(ask.prologue),
                offer: ask.offer@,
                since: ask.since,
            },
            Ask::Match(ask) => AskModel::Match {
                to: ask.to,
                frame: ask.frame@,
                prologue: prologue_bytes(ask.prologue),
                keys: keys_of(ask.keys@),
            },
            Ask::HelloSecret(ask) => AskModel::HelloSecret {
                to: ask.to,
                frame: ask.frame@,
                prologue: prologue_bytes(ask.prologue),
                slot: ask.slot,
            },
            Ask::EnrolChallenge(ask) => AskModel::EnrolChallenge {
                to: ask.to,
                enrolling: ask.enrolling,
                tag_key: ask.tag_key,
                offer: ask.offer@,
            },
            Ask::Store(ask) => AskModel::Store(ask@),
            Ask::Reserve(ask) => AskModel::Reserve {
                of: ask.of,
                command: ask.asked.of(),
                operation: ask.asked.operation@,
            },
            Ask::Again(ask) => AskModel::Again { of: ask.of, retry: ask.retry@ },
            Ask::Finish(ask) => AskModel::Finish {
                of: ask.of,
                reservation: ask.reservation@,
            },
            Ask::SetSection(ask) => AskModel::SetSection {
                of: ask.of,
                section: ask.operation.section,
                expected_version: ask.operation.expected_version,
                body: ask.operation.body@,
            },
            Ask::SectionVersion(ask) => AskModel::SectionVersion(*ask),
            Ask::ReadSection(ask) => AskModel::ReadSection(*ask),
            Ask::Wifi(ask) => AskModel::Wifi(*ask),
        }
    }
}

/// What one step came to.
#[must_use]
pub enum Step {
    /// What the adapter does.
    Said(Reply),
    /// What is wanted first.
    Asks(Ask),
}

/// What a step says, in the mathematical sense: the answer it means to write,
/// what it closes, and what it notes when the answer fits and when it does
/// not.
#[verifier::ext_equal]
pub struct Said {
    /// Whether nothing is written at all.
    pub silent: bool,
    /// The answer, or nothing where it cannot be written at any length.
    pub image: Option<Seq<u8>>,
    /// What it closes.
    pub close: Option<Close>,
    /// What it notes when the answer was written.
    pub note: Option<SessionNote>,
    /// What it notes when it was not.
    pub unfit: Option<SessionNote>,
}

impl Said {
    /// The same, noting this whether or not the answer fits.
    pub open spec fn with(self, note: SessionNote) -> Self {
        Said { note: Some(note), unfit: Some(note), ..self }
    }

    /// The same, closing this.
    pub open spec fn closing(self, close: Close) -> Self {
        Said { close: Some(close), ..self }
    }
}

/// Nothing to write, and this to note.
pub open spec fn silence(note: Option<SessionNote>) -> Said {
    Said { silent: true, image: None, close: None, note, unfit: note }
}

/// An answer, noted only where it does not fit.
pub open spec fn answering(image: Option<Seq<u8>>) -> Said {
    Said { silent: false, image, close: None, note: None, unfit: Some(SessionNote::TooLarge) }
}

/// Whether a reply and its buffer are what a step says.
pub open spec fn says(r: Reply, before: Seq<u8>, after: Seq<u8>, said: Said) -> bool {
    &&& after.len() == before.len()
    &&& r.close == said.close
    &&& said.silent ==> after == before
    &&& match said.image {
        Some(bytes) if !said.silent && bytes.len() <= before.len() => {
            &&& r.answer == Some(bytes.len() as usize)
            &&& r.note == said.note
            &&& after == spliced(before, 0, bytes)
        },
        _ => r.answer is None && r.note == said.unfit,
    }
}

/// What a step comes to, in the mathematical sense.
pub enum Next {
    /// It says this.
    Said(Said),
    /// It wants this first.
    Asks(AskModel),
}

/// Whether a step and its buffer are what it comes to. One that asks has
/// written nothing.
pub open spec fn steps(step: Step, before: Seq<u8>, after: Seq<u8>, next: Next) -> bool {
    match (step, next) {
        (Step::Said(reply), Next::Said(said)) => says(reply, before, after, said),
        (Step::Asks(ask), Next::Asks(model)) => ask@ == model && after == before,
        _ => false,
    }
}

} // verus!
