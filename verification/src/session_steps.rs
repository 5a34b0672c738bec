//! What each frame, each result of a worker and each answer to a question
//! makes of the sessions, and what is said to it.

use vstd::prelude::*;
use vstd::utf8::encode_utf8;

use crate::bytes::spliced;
use crate::clients::{
    allocation, keys_in, nobody, occupant_of, occupied_in, table_of, Place, SlotModel, READ_PRIVATE,
    SET_CLOCK, SLOTS, WRITE_CONFIG, WRITE_NETWORK_AND_CLOUD,
};
use crate::idents::{ClientId, Conn, Epoch, Generation, ReqId};
use crate::request::{
    Admission, InFlightModel, Permit, Recorded, ReservationModel, Reserved, Unchanged, Verdict,
    COMMAND, DUPLICATE, OPERATION_CAP, REUSED, SHADOWED,
};
use crate::secret::SecretModel;
use crate::session_ask::{
    answering, silence, AskModel, Asker, Next, ReadAsk, Refresh, Said, StoreModel, VersionAsk,
    WifiAsk, WifiAsked,
};
use crate::session_model::SessionsModel;
use crate::session_state::{
    live_of, spec_outlived, Addressed, AskedTime, Binding, Bound, Challenge, Close, CloseReason,
    Compat, Computed, Done, Facts, JobModel, KeysModel, OfferModel, PairingModel, ReportModel,
    RowModel, SessionNote, TaskModel, TimeAsked, WorkModel, LABEL_BYTES, MAX_FRAME, UNSPECIFIED,
};
use crate::session_wire::{
    command_ack, command_reads, discovery_image, empty_reads, enrol_answer, enrolling_client,
    error_body, error_image, get_config_reads, hello_reads, opened_channel, opening, pair_offer,
    pair_reads, pair_refusal, prologue_of, scan_reads, sealed_channel, sealing, set_config_ack,
    set_config_reads, time_ack, time_reads, vouch_answer, vouch_reads, Command, CommandModel, Fault,
    Outcome, PairRefusal, SetConfig, TimeOutcome, Unread,
};
use crate::text::TextModel;
use crate::tick::Tick;

verus! {

/// Error 1: the frame does not read.
pub const MALFORMED: u16 = 1;

/// Error 2: nobody serves the message.
pub const UNKNOWN_TYPE: u16 = 2;

/// Error 4: a session is opened first.
pub const HELLO_FIRST: u16 = 4;

/// Error 5: too large.
pub const TOO_LARGE: u16 = 5;

/// Error 7: retry later.
pub const BUSY: u16 = 7;

/// Error 9: the session has ended.
pub const EXPIRED: u16 = 9;

/// Error 10: a check failed.
pub const AUTH_FAILED: u16 = 10;

/// Error 12: no such client.
pub const UNKNOWN_CLIENT: u16 = 12;

/// Error 14: the challenge is stale.
pub const STALE_CHALLENGE: u16 = 14;

/// Error 18: no challenge can be given.
pub const NO_CHALLENGE: u16 = 18;

/// Error 20: the role does not permit it.
pub const NOT_PERMITTED: u16 = 20;

/// The first code that is about the link between the two processors.
pub const LINK_CODES: u16 = 0x100;

/// A message of the link on a client's transport.
pub const LINK_TYPE: u16 = 0x101;

/// The link is not up.
pub const BEFORE_LINK_UP: u16 = 0x102;

/// A handle nobody announced.
pub const UNKNOWN_HANDLE: u16 = 0x103;

/// `Discover`.
pub const DISCOVER: u8 = 0x00;

/// `Hello`.
pub const HELLO: u8 = 0x01;

/// `GetConfig`.
pub const GET_CONFIG: u8 = 0x06;

/// `Pair`.
pub const PAIR: u8 = 0x0b;

/// `Goodbye`.
pub const GOODBYE: u8 = 0x0c;

/// `WifiScan`.
pub const WIFI_SCAN: u8 = 0x11;

/// `WifiStatus`.
pub const WIFI_STATUS: u8 = 0x12;

/// `Enrol`.
pub const ENROL: u8 = 0x13;

/// `Vouch`.
pub const VOUCH: u8 = 0x14;

/// The answer to a section's read.
pub const GET_CONFIG_RESPONSE: u8 = 0x86;

/// The answer to a section's write.
pub const SET_CONFIG_RESPONSE: u8 = 0x87;

/// The answer to a command.
pub const COMMAND_RESPONSE: u8 = 0x88;

/// The answer to a clock write.
pub const TIME_RESPONSE: u8 = 0x8a;

/// The answer to a goodbye.
pub const GOODBYE_RESPONSE: u8 = 0x8c;

/// The answer to a scan.
pub const WIFI_SCAN_RESPONSE: u8 = 0x91;

/// The answer to a status.
pub const WIFI_STATUS_RESPONSE: u8 = 0x92;

/// The answer to a vouch.
pub const VOUCH_RESPONSE: u8 = 0x94;

/// An error.
pub const ERROR: u8 = 0xff;

/// The network section.
pub const NETWORK_SECTION: u16 = 0x20;

/// The cloud section.
pub const CLOUD_SECTION: u16 = 0x21;

/// Whether a message is a request on a session, which arrives sealed.
pub open spec fn spec_on_session(kind: u8) -> bool {
    ||| kind == 0x03
    ||| 0x05 <= kind <= 0x0a
    ||| 0x0c <= kind <= 0x12
    ||| 0x14 <= kind <= 0x18
}

/// Whether a section is the network's or the cloud's, in the mathematical
/// sense.
pub open spec fn spec_private(section: u16) -> bool {
    section == NETWORK_SECTION || section == CLOUD_SECTION
}

/// Whether a mask reaches every bit of `required`, in the mathematical sense.
pub open spec fn spec_allows(mask: Option<u16>, required: u16) -> bool {
    mask matches Some(mask) && mask & required == required
}

/// What a section's write requires, in the mathematical sense.
pub open spec fn spec_required(section: u16) -> u16 {
    if spec_private(section) {
        3
    } else {
        WRITE_CONFIG
    }
}

/// A text of a report: the text, or nothing where it is past the cap.
pub open spec fn report_model(text: Seq<char>) -> TextModel {
    let zeros = Seq::new(32, |i: int| 0u8);
    if encode_utf8(text).len() <= 32 {
        TextModel {
            len: encode_utf8(text).len() as u8,
            field: spliced(zeros, 0, encode_utf8(text)),
        }
    } else {
        TextModel { len: 0, field: zeros }
    }
}

/// A bare error, addressed.
pub open spec fn bare_said(to: Addressed, code: u16) -> Said {
    answering(error_image(code, to.conn@, to.req_id.0)).with(SessionNote::Refused(code))
}

/// Error 1 to nobody, for a frame whose four elements did not read. It notes
/// itself only where it was written.
pub open spec fn unreadable_said() -> Said {
    Said {
        note: Some(SessionNote::Unreadable),
        ..answering(error_image(MALFORMED, 0, 0))
    }
}

/// The mask of the enrolment a session is bound to, while it is still the
/// slot's: a slot re-keyed since grants its old session nothing.
pub open spec fn mask_of(keys: KeysModel, binding: Binding) -> Option<u16> {
    if keys.epoch is None {
        None
    } else {
        match occupant_of(keys.clients, binding.client) {
            Some(held) if held.generation == binding.generation => Some(held.role.spec_mask()),
            _ => None,
        }
    }
}

/// The secret and the epoch, when the unit can pair and let anybody in at all.
pub open spec fn ready_of(keys: KeysModel) -> Option<(SecretModel, Epoch)> {
    match (keys.secret, keys.epoch) {
        (Some(secret), Some(epoch)) if keys.controller => Some((secret, epoch)),
        _ => None,
    }
}

/// The answer to a `Discover`.
pub open spec fn discovery_said(
    m: SessionsModel,
    to: Addressed,
    secret: SecretModel,
    epoch: Epoch,
    challenge: [u8; 16],
    facts: Facts<'_>,
) -> Said {
    answering(
        discovery_image(
            to.conn@,
            to.req_id.0,
            secret.device_id,
            facts.model@,
            occupied_in(m.keys.clients, m.keys.clients.len()) > 0,
            facts.pairing_open,
            challenge@,
            epoch@,
        ),
    )
}

impl SessionsModel {
    /// The handshake of a handle's row abandoned.
    pub open spec fn abandoned(self, conn: Conn) -> Self {
        match self.row(conn) {
            Some(row) => self.with_row(conn, row.abandoned()),
            None => self,
        }
    }

    /// A challenge on a handle's row.
    pub open spec fn minted(self, conn: Conn, bytes: [u8; 16], now: Tick) -> Self {
        match self.row(conn) {
            Some(row) => self.with_row(
                conn,
                RowModel { challenge: Challenge::Live { bytes, minted: now }, ..row },
            ),
            None => self,
        }
    }

    /// Another binding on a handle that has a session.
    pub open spec fn with_binding(self, conn: Conn, binding: Binding) -> Self {
        match self.row(conn) {
            Some(row) => self.with_row(conn, RowModel { bound: Bound::Session(binding), ..row }),
            None => self,
        }
    }

    /// The session on a handle's row ended.
    pub open spec fn ended(self, conn: Conn) -> Self {
        match self.row(conn) {
            Some(row) => self.with_row(conn, RowModel { bound: Bound::Ended, ..row }),
            None => self,
        }
    }

    /// A refusal answered bare, counted against the connection when the peer
    /// failed a check it should have passed; the one that reaches the
    /// threshold ends any session on it and closes it.
    pub open spec fn refused(self, to: Addressed, code: u16, counted: bool, now: Tick) -> (
        Self,
        Said,
    ) {
        if !counted {
            (self, bare_said(to, code))
        } else if self.sheds(to.conn, now) {
            (
                self.counted(to.conn, now),
                bare_said(to, code).closing(
                    Close { conn: to.conn, reason: CloseReason::AuthenticationFailures },
                ),
            )
        } else {
            (self.counted(to.conn, now), bare_said(to, code))
        }
    }

    /// A check that failed: refused, or dropped unanswered.
    pub open spec fn faulted(self, to: Addressed, why: Fault, now: Tick) -> (Self, Said) {
        match why.code {
            Some(code) => self.refused(to, code, why.counts, now),
            None => (self, silence(Some(SessionNote::Dropped))),
        }
    }

    /// A pairing message that did not read or did not open: its handshake
    /// abandoned, and answered as the fault says.
    pub open spec fn pair_refused(self, to: Addressed, why: Fault, now: Tick) -> (Self, Said) {
        self.abandoned(to.conn).faulted(to, why, now)
    }

    /// The rows once a body is sealed for the session on a handle.
    pub open spec fn sealed(self, to: Addressed, kind: u8, body: Option<Seq<u8>>) -> Self {
        match (self.session(to.conn), body) {
            (Some(binding), Some(body)) => self.with_binding(
                to.conn,
                Binding {
                    channel: sealed_channel(binding.channel, kind, to.conn@, to.req_id.0, body),
                    ..binding
                },
            ),
            _ => self,
        }
    }

    /// A body sealed for the session on a handle.
    pub open spec fn image(self, to: Addressed, kind: u8, body: Option<Seq<u8>>) -> Option<
        Seq<u8>,
    > {
        match (self.session(to.conn), body) {
            (Some(binding), Some(body)) => sealing(
                binding.channel,
                kind,
                to.conn@,
                to.req_id.0,
                body,
            ),
            _ => None,
        }
    }

    /// A body sealed and answered.
    pub open spec fn answered(self, to: Addressed, kind: u8, body: Option<Seq<u8>>) -> (
        Self,
        Said,
    ) {
        (self.sealed(to, kind, body), answering(self.image(to, kind, body)))
    }

    /// An error sealed, for a request that opened.
    pub open spec fn sealed_error(self, to: Addressed, code: u16) -> (Self, Said) {
        let (after, said) = self.answered(to, ERROR, error_body(code));
        (after, said.with(SessionNote::Refused(code)))
    }

    /// A refusal of a request that opened: sealed; one about the link, bare.
    pub open spec fn refused_under(self, to: Addressed, code: u16) -> (Self, Said) {
        if code < LINK_CODES {
            self.sealed_error(to, code)
        } else {
            (self, bare_said(to, code))
        }
    }

    /// A command's acknowledgement, sealed.
    pub open spec fn acked(
        self,
        to: Addressed,
        cmd_id: u32,
        outcome: Command,
        detail: Seq<char>,
    ) -> (Self, Said) {
        self.answered(to, COMMAND_RESPONSE, command_ack(cmd_id, outcome.spec_number(), detail))
    }

    /// Whether the session that asked is the one on its handle now.
    pub open spec fn asks(self, of: Asker) -> bool {
        self.session(of.to.conn) matches Some(binding) && binding.serial == of.serial
    }

    /// A `Discover`: the row's live challenge, one asked for, or none to give.
    pub open spec fn discovers(self, to: Addressed, now: Tick, facts: Facts<'_>) -> Next {
        match ready_of(self.keys) {
            None => Next::Said(bare_said(to, NO_CHALLENGE).with(SessionNote::NoChallenge)),
            Some((secret, epoch)) => match self.row(to.conn) {
                Some(row) => match live_of(row.challenge, now) {
                    Some(bytes) => Next::Said(
                        discovery_said(self, to, secret, epoch, bytes, facts),
                    ),
                    None => Next::Asks(AskModel::Challenge(to)),
                },
                None => Next::Asks(AskModel::Challenge(to)),
            },
        }
    }

    /// A `Discover` whose challenge was asked for.
    pub open spec fn discovered(
        self,
        to: Addressed,
        drawn: Option<[u8; 16]>,
        now: Tick,
        facts: Facts<'_>,
    ) -> (Self, Said) {
        match (ready_of(self.keys), drawn) {
            (None, _) => (self, bare_said(to, NO_CHALLENGE).with(SessionNote::NoChallenge)),
            (_, None) => (
                self,
                bare_said(to, NO_CHALLENGE).with(SessionNote::EntropyUnavailable),
            ),
            (Some((secret, epoch)), Some(bytes)) => {
                let after = self.minted(to.conn, bytes, now);
                (after, discovery_said(after, to, secret, epoch, bytes, facts))
            },
        }
    }

    /// A pairing's first message, given how it reads.
    pub open spec fn pairs(
        self,
        to: Addressed,
        frame: Seq<u8>,
        read: Result<(), Fault>,
        now: Tick,
        facts: Facts<'_>,
    ) -> (Self, Next) {
        match read {
            Err(why) => {
                let (after, said) = self.pair_refused(to, why, now);
                (after, Next::Said(said))
            },
            Ok(_) => match self.presents(to, now) {
                (after, None) => (after, Next::Said(bare_said(to, STALE_CHALLENGE))),
                (after, Some(challenge)) => match ready_of(self.keys) {
                    None => (
                        after,
                        Next::Said(bare_said(to, NO_CHALLENGE).with(SessionNote::NoChallenge)),
                    ),
                    Some((secret, epoch)) => {
                        let prologue = prologue_of(
                            secret.device_id,
                            epoch@,
                            challenge@,
                            to.conn@,
                        );
                        after.pair_opens(
                            to,
                            frame,
                            prologue,
                            secret,
                            pair_offer(frame, prologue, secret.device_id, secret.printed),
                            now,
                            facts,
                        )
                    },
                },
            },
        }
    }

    /// The challenge presented: spent whatever it turns out to be, and the
    /// handshake the row held abandoned where it was live.
    pub open spec fn presents(self, to: Addressed, now: Tick) -> (Self, Option<[u8; 16]>) {
        match self.row(to.conn) {
            None => (self, None),
            Some(row) => match live_of(row.challenge, now) {
                None => (self.with_row(to.conn, row.presented()), None),
                Some(bytes) => (
                    self.with_row(to.conn, row.presented().abandoned()),
                    Some(bytes),
                ),
            },
        }
    }

    /// A pairing's first message, given what it opened into under a prologue.
    pub open spec fn pair_opens(
        self,
        to: Addressed,
        frame: Seq<u8>,
        prologue: Seq<u8>,
        secret: SecretModel,
        opened: Result<(u8, Seq<char>), Fault>,
        now: Tick,
        facts: Facts<'_>,
    ) -> (Self, Next) {
        match opened {
            Err(why) => {
                let (after, said) = self.pair_refused(to, why, now);
                (after, Next::Said(said))
            },
            Ok((kind, label)) => if encode_utf8(label).len() > LABEL_BYTES {
                (self, Next::Said(bare_said(to, MALFORMED)))
            } else if !facts.pairing_open {
                (
                    self,
                    Next::Said(
                        answering(
                            pair_refusal(
                                frame,
                                prologue,
                                secret.device_id,
                                secret.printed,
                                PairRefusal::WindowClosed.spec_number(),
                            ),
                        ),
                    ),
                )
            } else if allocation(table_of(self.keys.clients), None, label) == Place::Full {
                (
                    self,
                    Next::Said(
                        answering(
                            pair_refusal(
                                frame,
                                prologue,
                                secret.device_id,
                                secret.printed,
                                PairRefusal::TableFull.spec_number(),
                            ),
                        ),
                    ),
                )
            } else {
                (
                    self,
                    Next::Asks(
                        AskModel::PairSecret {
                            to,
                            frame,
                            prologue,
                            offer: OfferModel { kind, label },
                            since: now,
                        },
                    ),
                )
            },
        }
    }

    /// A pairing's first message whose secret was asked for: its second is
    /// queued.
    pub open spec fn pair_draws(
        self,
        to: Addressed,
        frame: Seq<u8>,
        prologue: Seq<u8>,
        offer: OfferModel,
        since: Tick,
        drawn: Option<[u8; 32]>,
    ) -> (Self, Said) {
        match drawn {
            None => (
                self,
                bare_said(to, NO_CHALLENGE).with(SessionNote::EntropyUnavailable),
            ),
            Some(ephemeral) => if frame.len() > MAX_FRAME {
                (self, bare_said(to, TOO_LARGE))
            } else {
                match self.row(to.conn) {
                    None => (self, silence(None)),
                    Some(row) => (
                        self.with_row(
                            to.conn,
                            RowModel {
                                pairing: PairingModel::Replying { offer, since },
                                work: WorkModel::Queued(
                                    JobModel {
                                        ticket: row.ticket(to.req_id),
                                        task: TaskModel::Proceed { frame, prologue, ephemeral },
                                    },
                                ),
                                ..row
                            },
                        ),
                        silence(Some(SessionNote::Queued(to.conn))),
                    ),
                }
            },
        }
    }

    /// A pairing's third message: queued if the row holds a handshake waiting
    /// for it, and refused otherwise.
    pub open spec fn enrols(self, to: Addressed, frame: Seq<u8>, now: Tick) -> (Self, Said) {
        match self.row(to.conn) {
            None => (self, silence(None)),
            Some(row) => match row.pairing {
                PairingModel::Awaiting { awaiting, offer, since } if !spec_outlived(since, now)
                    && frame.len() <= MAX_FRAME => (
                    self.with_row(
                        to.conn,
                        RowModel {
                            pairing: PairingModel::Enrolling { offer, since },
                            work: WorkModel::Queued(
                                JobModel {
                                    ticket: row.ticket(to.req_id),
                                    task: TaskModel::Enrol { frame, awaiting },
                                },
                            ),
                            ..row
                        },
                    ),
                    silence(Some(SessionNote::Queued(to.conn))),
                ),
                _ => (self.with_row(to.conn, row.abandoned()), bare_said(to, AUTH_FAILED)),
            },
        }
    }

    /// A pairing whose third message opened: the challenge its answer carries
    /// is asked for.
    pub open spec fn enrolled(
        self,
        to: Addressed,
        enrolling: km43::Enrolling,
        tag_key: [u8; 32],
        offer: OfferModel,
    ) -> Next {
        match ready_of(self.keys) {
            None => Next::Said(bare_said(to, NO_CHALLENGE).with(SessionNote::NoChallenge)),
            Some(_) => Next::Asks(AskModel::EnrolChallenge { to, enrolling, tag_key, offer }),
        }
    }

    /// The same, with the challenge: the window read again and the slot chosen
    /// again with the client's key; every session on the slot goes before it
    /// is rewritten.
    pub open spec fn enrol_draws(
        self,
        to: Addressed,
        enrolling: km43::Enrolling,
        tag_key: [u8; 32],
        offer: OfferModel,
        drawn: Option<[u8; 16]>,
        now: Tick,
        facts: Facts<'_>,
    ) -> (Self, Next) {
        match drawn {
            None => (
                self,
                Next::Said(bare_said(to, NO_CHALLENGE).with(SessionNote::EntropyUnavailable)),
            ),
            Some(next_challenge) => {
                let after = self.minted(to.conn, next_challenge, now);
                let client = enrolling_client(enrolling);
                let place = allocation(table_of(self.keys.clients), Some(client), offer.label);
                if !facts.pairing_open {
                    (
                        after,
                        Next::Said(
                            answering(
                                enrol_answer(
                                    enrolling,
                                    Outcome::WindowClosed.words(),
                                    next_challenge@,
                                ),
                            ),
                        ),
                    )
                } else {
                    match place.spec_slot() {
                        None => (
                            after,
                            Next::Said(
                                answering(
                                    enrol_answer(
                                        enrolling,
                                        Outcome::TableFull.words(),
                                        next_challenge@,
                                    ),
                                ),
                            ),
                        ),
                        Some((id, role)) => (
                            after.unbound(id),
                            Next::Asks(
                                AskModel::Store(
                                    StoreModel {
                                        to,
                                        enrolling,
                                        next_challenge,
                                        place,
                                        id,
                                        role,
                                        client,
                                        tag_key,
                                        offer,
                                    },
                                ),
                            ),
                        ),
                    }
                }
            },
        }
    }

    /// The same, with the slot written or not: it is held from the moment it
    /// landed, and the answer names it only then.
    pub open spec fn enrol_stores(self, ask: StoreModel, stored: Option<Generation>) -> (
        Self,
        Said,
    ) {
        match stored {
            None => (
                self,
                answering(
                    enrol_answer(ask.enrolling, Outcome::NotStored.words(), ask.next_challenge@),
                ).with(SessionNote::TableNotStored),
            ),
            Some(generation) => (
                SessionsModel {
                    keys: KeysModel {
                        clients: if 1 <= ask.id@ <= SLOTS {
                            self.keys.clients.update(
                                ask.id@ - 1,
                                Some(
                                    SlotModel {
                                        client: ask.client,
                                        tag_key: ask.tag_key@,
                                        generation,
                                        role: ask.role,
                                        kind: ask.offer.kind,
                                        label: ask.offer.label,
                                    },
                                ),
                            )
                        } else {
                            self.keys.clients
                        },
                        ..self.keys
                    },
                    ..self
                },
                answering(
                    enrol_answer(
                        ask.enrolling,
                        if ask.place is Free {
                            Outcome::Enrolled(ask.id, generation)
                        } else {
                            Outcome::Reclaimed(ask.id, generation)
                        }.words(),
                        ask.next_challenge@,
                    ),
                ).with(SessionNote::Paired(ask.id)),
            ),
        }
    }

    /// A session's opening, given how it reads: the challenge consumed, then
    /// the slot whose key its tag is under asked for.
    pub open spec fn hellos(
        self,
        to: Addressed,
        frame: Seq<u8>,
        read: Result<(), u16>,
        now: Tick,
    ) -> (Self, Next) {
        match read {
            Err(code) => (self, Next::Said(bare_said(to, code))),
            Ok(_) => match self.presents(to, now) {
                (after, None) => (after, Next::Said(bare_said(to, STALE_CHALLENGE))),
                (after, Some(challenge)) => match ready_of(self.keys) {
                    None => (
                        after,
                        Next::Said(bare_said(to, UNKNOWN_CLIENT).with(SessionNote::NoChallenge)),
                    ),
                    Some((secret, epoch)) => (
                        after,
                        Next::Asks(
                            AskModel::Match {
                                to,
                                frame,
                                prologue: prologue_of(
                                    secret.device_id,
                                    epoch@,
                                    challenge@,
                                    to.conn@,
                                ),
                                keys: keys_in(self.keys.clients, self.keys.clients.len()),
                            },
                        ),
                    ),
                },
            },
        }
    }

    /// A session's opening, with the slot its tag is under or the refusal.
    pub open spec fn hello_matches(
        self,
        to: Addressed,
        frame: Seq<u8>,
        prologue: Seq<u8>,
        matched: Result<ClientId, (u16, bool)>,
        now: Tick,
    ) -> (Self, Next) {
        match matched {
            Err((code, counts)) => {
                let (after, said) = self.refused(to, code, counts, now);
                (after, Next::Said(said))
            },
            Ok(slot) => match occupant_of(self.keys.clients, slot) {
                None => (self, Next::Said(bare_said(to, UNKNOWN_CLIENT))),
                Some(_) => (
                    self,
                    Next::Asks(AskModel::HelloSecret { to, frame, prologue, slot }),
                ),
            },
        }
    }

    /// A session's opening, with its secret: queued for the proof and the
    /// answer.
    pub open spec fn hello_draws(
        self,
        to: Addressed,
        frame: Seq<u8>,
        prologue: Seq<u8>,
        slot: ClientId,
        drawn: Option<[u8; 32]>,
        facts: Facts<'_>,
    ) -> (Self, Said) {
        match (drawn, occupant_of(self.keys.clients, slot)) {
            (None, _) => (
                self,
                bare_said(to, NO_CHALLENGE).with(SessionNote::EntropyUnavailable),
            ),
            (Some(ephemeral), held) => if frame.len() > MAX_FRAME {
                (self, bare_said(to, TOO_LARGE))
            } else {
                match (held, self.row(to.conn)) {
                    (None, _) => (self, bare_said(to, UNKNOWN_CLIENT)),
                    (_, None) => (self, silence(None)),
                    (Some(held), Some(row)) => (
                        self.with_row(
                            to.conn,
                            RowModel {
                                work: WorkModel::Queued(
                                    JobModel {
                                        ticket: row.ticket(to.req_id),
                                        task: TaskModel::Hello {
                                            frame,
                                            prologue,
                                            tag_key: held.tag_key,
                                            enrolled: held.client,
                                            ephemeral,
                                            report: ReportModel {
                                                conn: to.conn,
                                                fw_controller: report_model(facts.fw_controller@),
                                                fw_comms: report_model(facts.fw_comms@),
                                                log: facts.log,
                                                time_known: facts.time_known,
                                                client_id: slot,
                                                generation: held.generation,
                                            },
                                        },
                                    },
                                ),
                                ..row
                            },
                        ),
                        silence(Some(SessionNote::Queued(to.conn))),
                    ),
                }
            },
        }
    }

    /// A job that came back. Its answer goes out only if the handshake it
    /// belongs to is still the one its row is in.
    pub open spec fn completed(self, done: Done, now: Tick) -> (Self, Next) {
        let back = self.back(done.ticket);
        if !back.current(done.ticket) {
            (back, Next::Said(silence(Some(SessionNote::Stale))))
        } else {
            let conn = done.ticket.conn;
            let to = Addressed { conn, req_id: done.ticket.req_id };
            let row = RowModel { work: WorkModel::Idle, ..back.row(conn)->0 };
            let idle = back.with_row(conn, row);
            let dropped = back.with_row(conn, row.abandoned());
            let stale = Next::Said(silence(Some(SessionNote::Stale)));
            match done.result {
                Computed::Proceeded { awaiting, answer } => match row.pairing {
                    PairingModel::Replying { offer, since } => (
                        back.with_row(
                            conn,
                            RowModel {
                                pairing: PairingModel::Awaiting { awaiting, offer, since },
                                ..row
                            },
                        ),
                        Next::Said(answering(Some(answer@))),
                    ),
                    _ => (dropped, stale),
                },
                Computed::Enrolled { enrolling, tag_key } => match row.pairing {
                    PairingModel::Enrolling { offer, .. } => (
                        dropped,
                        dropped.enrolled(to, enrolling, tag_key, offer),
                    ),
                    _ => (dropped, stale),
                },
                Computed::Bound { channel, answer, client_id, generation } => {
                    let still = self.keys.epoch is Some && (occupant_of(
                        self.keys.clients,
                        client_id,
                    ) matches Some(held) && held.generation == generation);
                    if !still {
                        (idle, Next::Said(bare_said(to, UNKNOWN_CLIENT)))
                    } else {
                        let serial = next_u32(self.bindings);
                        (
                            SessionsModel {
                                bindings: serial,
                                ..back.with_row(
                                    conn,
                                    RowModel {
                                        bound: Bound::Session(
                                            Binding {
                                                client: client_id,
                                                generation,
                                                channel,
                                                heard: now,
                                                serial,
                                            },
                                        ),
                                        ..row
                                    },
                                )
                            },
                            Next::Said(
                                answering(Some(answer@)).with(SessionNote::Bound(conn)),
                            ),
                        )
                    }
                },
                Computed::PairFailed(why) => {
                    let (after, said) = dropped.faulted(to, why, now);
                    (after, Next::Said(said))
                },
                Computed::HelloFailed { code, counts } => {
                    let (after, said) = idle.refused(to, code, counts, now);
                    (after, Next::Said(said))
                },
                Computed::Vouched { answer, serial } => if idle.asks(Asker { to, serial }) {
                    let (after, said) = idle.answered(
                        to,
                        VOUCH_RESPONSE,
                        vouch_answer(answer.words()),
                    );
                    (after, Next::Said(said))
                } else {
                    (idle, stale)
                },
                Computed::Unwritable => (
                    dropped,
                    Next::Said(silence(Some(SessionNote::TooLarge))),
                ),
            }
        }
    }

    /// The recorder's answer to the `Time` it was handed, sealed for the
    /// session that asked.
    pub open spec fn time_answered(
        self,
        ticket: u32,
        answer: Option<(TimeOutcome, Option<u64>)>,
    ) -> (Self, Said) {
        match self.time {
            Some(asked) if asked.ticket == ticket => {
                let after = SessionsModel { time: None, ..self };
                if !after.asks(Asker { to: asked.to, serial: asked.serial }) {
                    (after, silence(None))
                } else {
                    match answer {
                        None => after.sealed_error(asked.to, BUSY),
                        Some((outcome, at)) => after.answered(
                            asked.to,
                            TIME_RESPONSE,
                            time_ack(outcome.spec_number(), at),
                        ),
                    }
                }
            },
            _ => (self, silence(None)),
        }
    }

    /// A goodbye that opened: answered, and the session ends.
    pub open spec fn goodbye(self, to: Addressed, read: Result<(), u16>) -> (Self, Said) {
        match read {
            Err(_) => self.sealed_error(to, MALFORMED),
            Ok(_) => {
                let (after, said) = self.answered(to, GOODBYE_RESPONSE, Some(seq![0xa0u8]));
                (after.ended(to.conn), said.with(SessionNote::Unbound(to.conn)))
            },
        }
    }

    /// A clock write that opened: handed to the recorder with a ticket. One at
    /// a time.
    pub open spec fn time_asked(
        self,
        to: Addressed,
        binding: Binding,
        read: Result<u64, u16>,
        now: Tick,
    ) -> (Self, Said) {
        match read {
            Err(code) => self.refused_under(to, code),
            Ok(at) => if self.time is Some {
                self.sealed_error(to, BUSY)
            } else {
                let ticket = next_u32(self.tickets);
                (
                    SessionsModel {
                        tickets: ticket,
                        time: Some(AskedTime { ticket, to, serial: binding.serial, asked: now }),
                        ..self
                    },
                    silence(
                        Some(
                            SessionNote::TimeAsked(
                                TimeAsked {
                                    ticket,
                                    at,
                                    authorised: spec_allows(
                                        mask_of(self.keys, binding),
                                        SET_CLOCK,
                                    ),
                                },
                            ),
                        ),
                    ),
                )
            },
        }
    }

    /// A vouch that opened: queued for the worker with the epoch and the
    /// session's slot, since the request names neither.
    pub open spec fn vouches(
        self,
        to: Addressed,
        binding: Binding,
        payload: Seq<u8>,
        read: Result<(), u16>,
    ) -> (Self, Said) {
        match (read, self.row(to.conn)) {
            (Err(code), _) => self.refused_under(to, code),
            (_, None) => (self, silence(None)),
            (_, Some(row)) => if !(row.pairing is Nothing) || !(row.work is Idle) {
                self.sealed_error(to, BUSY)
            } else {
                match self.keys.epoch {
                    None => self.sealed_error(to, UNKNOWN_CLIENT),
                    Some(epoch) => (
                        self.with_row(
                            to.conn,
                            RowModel {
                                work: WorkModel::Queued(
                                    JobModel {
                                        ticket: row.ticket(to.req_id),
                                        task: TaskModel::Vouch {
                                            request: payload,
                                            epoch,
                                            bound: (binding.client, binding.generation),
                                            serial: binding.serial,
                                        },
                                    },
                                ),
                                ..row
                            },
                        ),
                        silence(Some(SessionNote::Queued(to.conn))),
                    ),
                }
            },
        }
    }

    /// A command that opened, given how its operation reads: the dedup table's
    /// word is asked for.
    pub open spec fn commands(
        self,
        to: Addressed,
        binding: Binding,
        operation: Seq<u8>,
        read: Result<CommandModel, u16>,
    ) -> (Self, Next) {
        match read {
            Err(code) => {
                let (after, said) = self.refused_under(to, code);
                (after, Next::Said(said))
            },
            Ok(command) => (
                self,
                Next::Asks(
                    AskModel::Reserve {
                        of: Asker { to, serial: binding.serial },
                        command: ReservationModel {
                            header: crate::request::Header {
                                kind: COMMAND,
                                conn: to.conn,
                                req_id: to.req_id,
                            },
                            client: binding.client,
                            command,
                            seat: Reserved(0),
                        },
                        operation,
                    },
                ),
            ),
        }
    }

    /// The dedup table's word on a command. An entry a reset left in flight is
    /// discarded and run again, once: no output has authority yet, so none can
    /// already be where the command asked.
    pub open spec fn command_decided(
        self,
        of: Asker,
        command: ReservationModel,
        operation: Seq<u8>,
        verdict: Result<Verdict, Unchanged>,
        retried: bool,
    ) -> (Self, Next) {
        if !self.asks(of) {
            (self, Next::Said(silence(None)))
        } else {
            let cmd_id = command.command.cmd_id;
            let (after, said) = match verdict {
                Ok(Verdict::Already(Recorded::Accepted)) => self.acked(
                    of.to,
                    cmd_id,
                    Command::Duplicate,
                    DUPLICATE@,
                ),
                Ok(Verdict::Already(Recorded::Shadowed)) => self.acked(
                    of.to,
                    cmd_id,
                    Command::Shadowed,
                    SHADOWED@,
                ),
                Ok(Verdict::ReusedId) => self.acked(of.to, cmd_id, Command::Rejected, REUSED@),
                Err(_) => {
                    let (after, said) = self.sealed_error(of.to, BUSY);
                    (after, said.with(SessionNote::NotKept))
                },
                _ => self.sealed_error(of.to, BUSY),
            };
            match verdict {
                Ok(Verdict::Fresh(seat)) => (
                    self,
                    Next::Asks(
                        AskModel::Finish {
                            of,
                            reservation: ReservationModel { seat, ..command },
                        },
                    ),
                ),
                Ok(Verdict::InFlight(seat)) if !retried => (
                    self,
                    Next::Asks(
                        AskModel::Again {
                            of,
                            retry: InFlightModel {
                                of: ReservationModel { seat, ..command },
                                operation,
                            },
                        },
                    ),
                ),
                _ => (after, Next::Said(said)),
            }
        }
    }

    /// What an admission that is not in flight is answered with.
    pub open spec fn admits(self, of: Asker, admission: Admission) -> (Self, Next) {
        match admission {
            Admission::Refused(why) => {
                let (after, said) = self.refused_under(of.to, why.spec_code());
                (
                    after,
                    Next::Said(
                        if why is NotKept {
                            said.with(SessionNote::NotKept)
                        } else {
                            said
                        },
                    ),
                )
            },
            Admission::Answered(ack) => {
                let (after, said) = self.acked(of.to, ack.cmd_id, ack.outcome, ack.detail@);
                (after, Next::Said(said))
            },
            Admission::Execute(Permit::Command(reservation)) => (
                self,
                Next::Asks(AskModel::Finish { of, reservation: reservation@ }),
            ),
            _ => {
                let (after, said) = self.sealed_error(of.to, UNKNOWN_TYPE);
                (after, Next::Said(said))
            },
        }
    }

    /// A command that ran: no kind has an argument schema yet, so it is
    /// rejected, its entry discarded, and nothing reaches an output.
    pub open spec fn command_finished(
        self,
        of: Asker,
        reservation: ReservationModel,
        recorded: Result<(), Unchanged>,
    ) -> (Self, Said) {
        if !self.asks(of) {
            (self, silence(None))
        } else {
            let (after, said) = self.acked(
                of.to,
                reservation.command.cmd_id,
                Command::Rejected,
                UNSPECIFIED@,
            );
            match recorded {
                Ok(_) => (after, said),
                Err(_) => (after, said.with(SessionNote::NotKept)),
            }
        }
    }

    /// A section write that opened, given how it reads: the mask decides
    /// whether it is written.
    pub open spec fn sets(
        self,
        to: Addressed,
        binding: Binding,
        read: Result<(u16, u32, Seq<u8>), u16>,
    ) -> (Self, Next) {
        match read {
            Err(code) => {
                let (after, said) = self.refused_under(to, code);
                (after, Next::Said(said))
            },
            Ok((section, expected_version, body)) => {
                let of = Asker { to, serial: binding.serial };
                if spec_allows(mask_of(self.keys, binding), spec_required(section)) {
                    (
                        self,
                        Next::Asks(AskModel::SetSection { of, section, expected_version, body }),
                    )
                } else {
                    (self, Next::Asks(AskModel::SectionVersion(VersionAsk { of, section })))
                }
            },
        }
    }

    /// A section write's acknowledgement, or its refusal.
    pub open spec fn section_set(
        self,
        of: Asker,
        section: u16,
        written: Result<(u32, SetConfig), u16>,
    ) -> (Self, Said) {
        if !self.asks(of) {
            (self, silence(None))
        } else {
            match written {
                Err(code) => self.sealed_error(of.to, code),
                Ok((version, outcome)) => self.answered(
                    of.to,
                    SET_CONFIG_RESPONSE,
                    set_config_ack(section, version, outcome.spec_number()),
                ),
            }
        }
    }

    /// A section read that opened, given how it reads: the network and cloud
    /// sections are private.
    pub open spec fn gets(self, to: Addressed, binding: Binding, read: Result<u16, u16>) -> (
        Self,
        Next,
    ) {
        match read {
            Err(code) => {
                let (after, said) = self.refused_under(to, code);
                (after, Next::Said(said))
            },
            Ok(section) => if spec_private(section) && !spec_allows(
                mask_of(self.keys, binding),
                READ_PRIVATE,
            ) {
                let (after, said) = self.sealed_error(to, NOT_PERMITTED);
                (after, Next::Said(said))
            } else {
                (
                    self,
                    Next::Asks(
                        AskModel::ReadSection(
                            ReadAsk { of: Asker { to, serial: binding.serial }, section },
                        ),
                    ),
                )
            },
        }
    }

    /// A body read for a session that asked, sealed, or its refusal.
    pub open spec fn body_read(self, of: Asker, kind: u8, body: Result<Seq<u8>, u16>) -> (
        Self,
        Said,
    ) {
        if !self.asks(of) {
            (self, silence(None))
        } else {
            match body {
                Err(code) => self.refused_under(of.to, code),
                Ok(body) => self.answered(of.to, kind, Some(body)),
            }
        }
    }

    /// A scan that opened, given how it reads: the list is private, and a
    /// refresh also moves the radio off the network.
    pub open spec fn scans(
        self,
        to: Addressed,
        binding: Binding,
        read: Result<bool, u16>,
        facts: Facts<'_>,
    ) -> (Self, Next) {
        let mask = mask_of(self.keys, binding);
        match read {
            Err(code) => {
                let (after, said) = self.refused_under(to, code);
                (after, Next::Said(said))
            },
            Ok(refresh) => if !spec_allows(mask, READ_PRIVATE) {
                let (after, said) = self.sealed_error(to, NOT_PERMITTED);
                (after, Next::Said(said))
            } else {
                (
                    self,
                    Next::Asks(
                        AskModel::Wifi(
                            WifiAsk {
                                of: Asker { to, serial: binding.serial },
                                asked: WifiAsked::Scan(
                                    if refresh {
                                        Some(
                                            Refresh {
                                                authorised: spec_allows(
                                                    mask,
                                                    WRITE_NETWORK_AND_CLOUD,
                                                ),
                                                provisioned: facts.network_version != 0,
                                                agreed: facts.link == Some(Compat::Agreed),
                                            },
                                        )
                                    } else {
                                        None
                                    },
                                ),
                            },
                        ),
                    ),
                )
            },
        }
    }

    /// A status that opened, given how it reads.
    pub open spec fn reports(
        self,
        to: Addressed,
        binding: Binding,
        read: Result<(), u16>,
        facts: Facts<'_>,
    ) -> (Self, Next) {
        match read {
            Err(code) => {
                let (after, said) = self.refused_under(to, code);
                (after, Next::Said(said))
            },
            Ok(_) => (
                self,
                Next::Asks(
                    AskModel::Wifi(
                        WifiAsk {
                            of: Asker { to, serial: binding.serial },
                            asked: WifiAsked::Status(facts.network_version),
                        },
                    ),
                ),
            ),
        }
    }

    /// A sealed request on a session: opened under the session's keys before
    /// anything is read.
    pub open spec fn seals(
        self,
        to: Addressed,
        kind: u8,
        frame: Seq<u8>,
        now: Tick,
        facts: Facts<'_>,
    ) -> (Self, Next) {
        match self.row(to.conn) {
            None => (self, Next::Said(bare_said(to, EXPIRED))),
            Some(row) => match row.bound {
                Bound::Never => (self, Next::Said(bare_said(to, HELLO_FIRST))),
                Bound::Ended => (self, Next::Said(bare_said(to, EXPIRED))),
                Bound::Session(binding) => self.with_binding(
                    to.conn,
                    Binding { channel: opened_channel(binding.channel, frame), ..binding },
                ).opens(to, kind, opening(binding.channel, frame), now, facts),
            },
        }
    }

    /// A sealed request, given what it opened into: only one that opens
    /// refreshes the session.
    pub open spec fn opens(
        self,
        to: Addressed,
        kind: u8,
        opened: Result<Seq<u8>, Fault>,
        now: Tick,
        facts: Facts<'_>,
    ) -> (Self, Next) {
        match (self.session(to.conn), opened) {
            (None, _) => (self, Next::Said(silence(None))),
            (_, Err(why)) => {
                let (after, said) = self.faulted(to, why, now);
                (after, Next::Said(said))
            },
            (Some(binding), Ok(payload)) => {
                let heard = Binding { heard: now, ..binding };
                self.with_binding(to.conn, heard).serves(to, heard, kind, payload, now, facts)
            },
        }
    }

    /// A request that opened, on its session.
    pub open spec fn serves(
        self,
        to: Addressed,
        binding: Binding,
        kind: u8,
        payload: Seq<u8>,
        now: Tick,
        facts: Facts<'_>,
    ) -> (Self, Next) {
        let refused = self.refused_under(to, TOO_LARGE);
        if kind == GOODBYE {
            let (after, said) = self.goodbye(to, empty_reads(GOODBYE, payload));
            (after, Next::Said(said))
        } else if kind == WIFI_SCAN {
            self.scans(to, binding, scan_reads(payload), facts)
        } else if kind == WIFI_STATUS {
            self.reports(to, binding, empty_reads(WIFI_STATUS, payload), facts)
        } else if kind == GET_CONFIG {
            self.gets(to, binding, get_config_reads(payload))
        } else if kind == COMMAND {
            if payload.len() > OPERATION_CAP {
                (refused.0, Next::Said(refused.1))
            } else {
                self.commands(to, binding, payload, command_reads(payload))
            }
        } else if kind == crate::request::SET_CONFIG {
            if payload.len() > OPERATION_CAP {
                (refused.0, Next::Said(refused.1))
            } else {
                self.sets(to, binding, set_config_reads(payload))
            }
        } else if kind == crate::request::TIME {
            if payload.len() > OPERATION_CAP {
                (refused.0, Next::Said(refused.1))
            } else {
                let (after, said) = self.time_asked(to, binding, time_reads(payload), now);
                (after, Next::Said(said))
            }
        } else if kind == VOUCH {
            let (after, said) = self.vouches(to, binding, payload, vouch_reads(payload));
            (after, Next::Said(said))
        } else if spec_on_session(kind) {
            let (after, said) = self.sealed_error(to, UNKNOWN_TYPE);
            (after, Next::Said(said))
        } else {
            let (after, said) = self.sealed_error(to, MALFORMED);
            (after, Next::Said(said))
        }
    }

    /// A client's frame, given how its envelope reads.
    pub open spec fn frames(
        self,
        frame: Seq<u8>,
        scalars: Option<(u16, u32)>,
        kind: Result<u8, Unread>,
        now: Tick,
        facts: Facts<'_>,
    ) -> (Self, Next) {
        match scalars {
            None => (self, Next::Said(unreadable_said())),
            Some((handle, req)) => if handle == 0 {
                (self, Next::Said(silence(Some(SessionNote::NoHandle))))
            } else {
                let to = Addressed { conn: Conn::spec_of(handle), req_id: ReqId(req) };
                if facts.link is None {
                    (self, Next::Said(bare_said(to, BEFORE_LINK_UP)))
                } else if self.row(to.conn) is None {
                    (self, Next::Said(bare_said(to, UNKNOWN_HANDLE)))
                } else {
                    match kind {
                        Err(Unread::LinkLocal) => (self, Next::Said(bare_said(to, LINK_TYPE))),
                        Err(Unread::Unknown) => (self, Next::Said(bare_said(to, UNKNOWN_TYPE))),
                        Err(Unread::Malformed) => (self, Next::Said(bare_said(to, MALFORMED))),
                        Ok(kind) => self.routes(to, kind, frame, now, facts),
                    }
                }
            },
        }
    }

    /// The session a frame opens on, by its handle and its serial, if it opens
    /// on one.
    pub open spec fn taken(
        self,
        frame: Seq<u8>,
        scalars: Option<(u16, u32)>,
        kind: Result<u8, Unread>,
        facts: Facts<'_>,
    ) -> Option<(Conn, u32)> {
        match (scalars, kind) {
            (Some((handle, _)), Ok(kind)) if handle != 0 && facts.link is Some
                && spec_on_session(kind) => match self.session(Conn::spec_of(handle)) {
                Some(binding) if opening(binding.channel, frame) is Ok => Some(
                    (Conn::spec_of(handle), binding.serial),
                ),
                _ => None,
            },
            _ => None,
        }
    }

    /// A client's frame, by its message.
    pub open spec fn routes(
        self,
        to: Addressed,
        kind: u8,
        frame: Seq<u8>,
        now: Tick,
        facts: Facts<'_>,
    ) -> (Self, Next) {
        if kind == DISCOVER {
            (self, self.discovers(to, now, facts))
        } else if kind == PAIR {
            self.pairs(to, frame, pair_reads(frame), now, facts)
        } else if kind == ENROL {
            let (after, said) = self.enrols(to, frame, now);
            (after, Next::Said(said))
        } else if kind == HELLO {
            self.hellos(to, frame, hello_reads(frame), now)
        } else if spec_on_session(kind) {
            self.seals(to, kind, frame, now, facts)
        } else if kind == ERROR {
            (self, Next::Said(silence(Some(SessionNote::ClientError))))
        } else {
            (self, Next::Said(bare_said(to, MALFORMED)))
        }
    }

    /// The rows and the keys once a factory reset has come as far as it did:
    /// the epoch the part holds now, and nobody enrolled under it where it
    /// moved or the slots were freed.
    pub open spec fn reset_to(self, epoch: Option<Epoch>, freed: bool) -> Self {
        SessionsModel {
            keys: KeysModel {
                epoch,
                clients: if freed || epoch != self.keys.epoch {
                    nobody()
                } else {
                    self.keys.clients
                },
                ..self.keys
            },
            ..self
        }
    }
}

/// One more, round to zero again.
pub open spec fn next_u32(n: u32) -> u32 {
    if n == u32::MAX {
        0
    } else {
        (n + 1) as u32
    }
}

} // verus!
