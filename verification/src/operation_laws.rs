//! What the operations themselves do, call by call: how what is asked of them,
//! what they answer and what they leave behind hang together.

use vstd::prelude::*;
use vstd::utf8::encode_utf8;

use crate::body::{Held, Refused};
use crate::boot_count::BootCount;
use crate::clients::{occupant_of, Clients, Occupant};
use crate::concern::ConcernRecord;
use crate::cuts::{CarriedCuts, CutsOnPart, CutsRecord, RecentCuts};
use crate::idents::{ClientId, ReqId};
use crate::reading::{Id, Provenance, QualityError, SignalQuality, Validity};
use crate::readout::{PinState, RailReadout, RailState};
use crate::release::{CommsRelease, Digest, Release};
use crate::req_window::{OutOfWindow, ReqWindow};
use crate::request::{
    Executed, Finished, Header, InFlight, Refusal, Reservation, Settling, SignedWrite, Unchanged,
};
use crate::reset::{BackupDomain, BootRecord, ResetCause, RtcClock};
use crate::revision::{Revision, StopMode, StrapRoute};
use crate::rollcall::{law_places_tell_tasks_apart, Blame, Feed, Rollcall, Task};
use crate::run_reason::{Declared, KeptReason, RunReason};
use crate::secret::{ControllerKey, NoEntropy, Secret};
use crate::session_wire::Command;
use crate::signals::{
    ChargeSource, Eligible, Ineligible, Limits, Observation, ProvenanceSet, SignalError, Signals,
    Slot,
};
use crate::site::{
    devices_of, gathered, owed_next, readings_outcome, selection, signals_of, Announced, ConcernAsk,
    Due, OwedError, OwedWhat, ReadingsFailed, Seen, Site, SiteError, Tally, Token, RECORD_BODY,
};
use crate::site_rows::{
    Descriptor, DeviceAddress, Presence, ReadSignals, TopologyChangeReason,
};
use crate::text::{Text, TooLong};
use crate::tick::{Millis, Tick, UnixMillis};
use crate::tick_laws::{
    law_a_tick_names_every_presence_that_moved, law_a_tick_speaks_in_order,
};
use crate::topology::Paged;
use crate::wall_clock::{ClockChange, OfferedTime, TimeSource, WallClock};
use crate::wire::{presence_image, readings_image};

verus! {

broadcast use {Id::same_number_same_id, SignalQuality::halves};

/// A write is read out of a body that opened exactly when its message is one of
/// the seven that write and its operation is inside the cap of 960 bytes; the
/// message decides first. What is read is what opened.
pub proof fn law_a_write_is_read_or_refused_for_its_reason(
    header: Header,
    inner: Vec<u8>,
    r: Result<SignedWrite, u16>,
)
    requires
        call_ensures(SignedWrite::read, (header, inner), r),
    ensures
        ({
            let writes = 0x07 <= header.kind <= 0x0a || 0x15 <= header.kind <= 0x17;
            &&& r is Ok <==> writes && inner@.len() <= 960
            &&& r == Err::<SignedWrite, u16>(1) <==> !writes
            &&& r == Err::<SignedWrite, u16>(5) <==> writes && inner@.len() > 960
            &&& r matches Ok(write) ==> write.header == header && write.operation@ == inner@
        }),
{
}

/// A command finished is acknowledged under its own number with what its handler
/// reported, whether or not the record of it landed; and one that did not land
/// is reported beside the answer.
pub proof fn law_a_finished_command_says_what_it_did(
    reservation: Reservation,
    executed: Executed,
    detail: &str,
    recorded: Result<(), Unchanged>,
    r: Finished<'_>,
)
    requires
        call_ensures(Reservation::finished, (reservation, executed, detail, recorded), r),
    ensures
        r.ack.cmd_id == reservation@.command.cmd_id,
        r.ack.detail == detail,
        r.ack.outcome == Command::Accepted <==> executed == Executed::Accepted,
        r.ack.outcome == Command::Rejected <==> executed == Executed::Rejected,
        r.ack.outcome == Command::Inhibited <==> executed == Executed::Inhibited,
        r.ack.outcome == Command::Unauthorised <==> executed == Executed::Unauthorised,
        r.ack.outcome == Command::Shadowed <==> executed == Executed::Shadowed,
        r.ack.outcome == Command::StaleTopology <==> executed == Executed::StaleTopology,
        r.ack.outcome == Command::WrongTarget <==> executed == Executed::WrongTarget,
        r.not_recorded is None <==> recorded is Ok,
        recorded matches Err(why) ==> r.not_recorded == Some(why),
{
}

/// A retry whose hardware is already there is a duplicate, unless another
/// retry's permit holds its entry: then it is refused as running.
pub proof fn law_a_settled_retry_is_a_duplicate(
    retry: InFlight,
    settled: Result<Settling, Unchanged>,
    r: Result<Finished<'static>, Refusal>,
)
    requires
        call_ensures(InFlight::already, (retry, settled), r),
    ensures
        r is Err <==> settled == Ok::<Settling, Unchanged>(Settling::Held),
        r matches Err(why) ==> why == Refusal::Running,
        r matches Ok(finished) ==> finished.ack.outcome == Command::Duplicate
            && finished.ack.cmd_id == retry@.of.command.cmd_id && (finished.not_recorded is None
            <==> settled is Ok),
{
}

/// Only an entry that did not land raises a condition, and it is condition 24.
pub proof fn law_only_an_entry_not_kept_raises(refusal: &Refusal, r: Option<u16>)
    requires
        call_ensures(Refusal::raises, (refusal,), r),
    ensures
        r is Some <==> *refusal is NotKept,
        r matches Some(condition) ==> condition == 24,
{
}

/// The floor is the newest timestamp the log holds wherever it holds one, even
/// before the build, and the build's only where it holds none; zero is no time.
pub proof fn law_the_floor_is_the_newest_timestamp(
    newest: Option<u64>,
    build: u64,
    r: Option<UnixMillis>,
)
    requires
        call_ensures(WallClock::floor, (newest, build), r),
    ensures
        newest matches Some(at) ==> (r is Some <==> at != 0) && (r matches Some(floor) ==> floor@
            == at),
        newest is None ==> (r is Some <==> build != 0) && (r matches Some(floor) ==> floor@
            == build),
{
}

/// A value offered moves on with the tick from when it arrived, millisecond for
/// millisecond; before that, or past the end of the count, there is none.
pub proof fn law_an_offered_time_moves_with_the_tick(
    offered: OfferedTime,
    now: Tick,
    r: Option<u64>,
)
    requires
        call_ensures(OfferedTime::at, (offered, now), r),
    ensures
        r is Some <==> now.0 >= offered@.1.0 && offered@.0 + now.0 - offered@.1.0 <= u64::MAX,
        r matches Some(at) ==> at - offered@.0 == now.0 - offered@.1.0,
{
}

/// A change applied is owed to the log for the request that asked, starts the
/// limit now, and may be written at once; one more is refused while one is owed,
/// and changes nothing.
pub proof fn law_one_change_is_owed_at_a_time(
    clock: &mut WallClock,
    req_id: ReqId,
    offered: OfferedTime,
    change: ClockChange,
    now: Tick,
    r: bool,
)
    requires
        call_ensures(WallClock::applied, (clock, req_id, offered, change, now), r),
    ensures
        r <==> old(clock)@.audit is None,
        !r ==> final(clock)@ == old(clock)@,
        r ==> {
            &&& final(clock)@.last_offer == Some(now)
            &&& final(clock)@.audit matches Some(audit) && audit.change == change && (
            audit.reply matches Some(of) && of.req_id == req_id && of.at == offered@.0)
            &&& final(clock)@.auditing(now).1 == Some(change)
            &&& final(clock)@.audited(now).1 == Some(req_id)
            &&& final(clock)@.pending == old(clock)@.pending
            &&& final(clock)@.completed == old(clock)@.completed
            &&& final(clock)@.rate_refusals == old(clock)@.rate_refusals
            &&& final(clock)@.limited(now)
        },
{
}

/// A change recovered after a reset is owed to the log with nobody to answer,
/// may be written at once, and does not start the limit.
pub proof fn law_a_recovered_change_answers_nobody(
    clock: &mut WallClock,
    change: ClockChange,
    now: Tick,
    r: bool,
)
    requires
        call_ensures(WallClock::recover_audit, (clock, change), r),
    ensures
        r <==> old(clock)@.audit is None,
        !r ==> final(clock)@ == old(clock)@,
        r ==> final(clock)@.auditing(now).1 == Some(change) && final(clock)@.audited(now).1 is None
            && final(clock)@.last_offer == old(clock)@.last_offer,
{
}

/// A change that landed is kept across a reset as it was: what it said before
/// it says after.
pub proof fn law_a_change_is_recovered_as_it_was(
    change: ClockChange,
    old_value: Option<UnixMillis>,
    new_value: UnixMillis,
    source: TimeSource,
    back: ClockChange,
)
    requires
        call_ensures(ClockChange::old_value, (change,), old_value),
        call_ensures(ClockChange::new_value, (change,), new_value),
        call_ensures(ClockChange::source, (change,), source),
        call_ensures(ClockChange::recovered, (old_value, new_value, source), back),
    ensures
        back@ == change@,
{
}

/// An observation carries a value with a provenance, or no value and a validity
/// that carries none; anything else is refused, each under its own name. No
/// observation is stale.
pub proof fn law_an_observation_is_honest(
    value: i32,
    provenance: Provenance,
    validity: Validity,
    seen: Result<Observation, QualityError>,
    missed: Result<Observation, QualityError>,
)
    requires
        call_ensures(Observation::value, (value, provenance), seen),
        call_ensures(Observation::missing, (validity,), missed),
    ensures
        seen is Ok <==> provenance != Provenance::Nowhere,
        seen matches Ok(given) ==> given.spec_reading() == Some(value)
            && given.spec_quality().validity() == Validity::Current
            && given.spec_quality().provenance() == provenance,
        seen matches Err(why) ==> why == QualityError::CarryingWithoutProvenance,
        missed is Ok <==> validity != Validity::Current && validity != Validity::Stale,
        missed matches Ok(given) ==> given.spec_reading() is None && given.spec_quality().validity()
            == validity && given.spec_quality().provenance() == Provenance::Nowhere,
        missed matches Err(why) ==> why == QualityError::ValueOmitted(validity),
{
}

/// Limits of no time at all are a mistake and are not made; any other are what
/// was asked for.
pub proof fn law_limits_are_never_zero(
    max_age: Millis,
    max_unchanged: Option<Millis>,
    r: Option<Limits>,
)
    requires
        call_ensures(Limits::new, (max_age, max_unchanged), r),
    ensures
        r is None <==> max_age.0 == 0 || (max_unchanged is Some && (max_unchanged->0).0 == 0),
        r matches Some(limits) ==> limits.spec_max_age() == max_age && limits.spec_max_unchanged()
            == max_unchanged,
{
}

/// A signal registered reads initialising and the others as they did; one
/// registered before is refused, and so is any once every place is taken, and
/// then nothing changes.
pub proof fn law_a_registered_signal_is_new<const N: usize>(
    store: &mut Signals<N>,
    sig: Id,
    limits: Limits,
    other: Id,
    now: Tick,
    r: Result<(), SignalError>,
)
    requires
        old(store).wf(),
        call_ensures(Signals::<N>::register, (store, sig, limits), r),
    ensures
        ({
            let known = exists|i: int|
                0 <= i < old(store)@.len() && (#[trigger] old(store)@[i]).sig == sig;
            &&& r == Err::<(), SignalError>(SignalError::Duplicate(sig)) <==> known
            &&& r == Err::<(), SignalError>(SignalError::Full) <==> !known && old(store)@.len() >= N
            &&& r is Ok <==> !known && old(store)@.len() < N
            &&& r is Err ==> final(store)@ == old(store)@
            &&& r is Ok ==> final(store)@.len() == old(store)@.len() + 1
            &&& r is Ok ==> (final(store).spec_sample(sig, now) matches Ok(sample) && sample.sig
                == sig && sample.value is None && sample.q.validity() == Validity::Initialising)
            &&& r is Ok && other != sig ==> final(store).spec_sample(other, now) == old(
                store,
            ).spec_sample(other, now)
        }),
{
    let before = old(store)@;
    let after = final(store)@;
    if r is Ok {
        let slot = crate::signals::Slot { sig, limits, held: None };
        let at = choose|at: int|
            0 <= at <= before.len() && after == #[trigger] before.insert(at, slot);
        assert(after[at] == slot);
        let p = crate::signals::place(after, sig);
        assert(after[p].sig == sig);
        if p < at {
            assert(after[p] == before[p]);
        } else if p > at {
            assert(after[p] == before[p - 1]);
        }
        if other != sig {
            if crate::signals::registered(before, other) {
                let b = crate::signals::place(before, other);
                assert(before[b].sig == other);
                let a = if b < at {
                    b
                } else {
                    b + 1
                };
                assert(after[a] == before[b]);
                let c = crate::signals::place(after, other);
                assert(after[c].sig == other);
                assert(c == a) by {
                    if c < a {
                        assert(after[c].sig@ < after[a].sig@);
                    } else if a < c {
                        assert(after[a].sig@ < after[c].sig@);
                    }
                }
            } else if crate::signals::registered(after, other) {
                let c = crate::signals::place(after, other);
                assert(after[c].sig == other);
                if c < at {
                    assert(before[c].sig == other);
                } else if c > at {
                    assert(before[c - 1].sig == other);
                }
            }
        }
    }
}

/// A write is refused for a signal nobody registered and for a tick before the
/// last write, and changes nothing then; else the signal says what was written
/// and no other signal changes.
pub proof fn law_a_written_signal_says_what_was_written<const N: usize>(
    store: &mut Signals<N>,
    sig: Id,
    now: Tick,
    seen: Observation,
    other: Id,
    r: Result<(), SignalError>,
    at: int,
)
    requires
        old(store).wf(),
        call_ensures(Signals::<N>::write, (store, sig, now, seen), r),
        0 <= at < old(store)@.len(),
    ensures
        r == Err::<(), SignalError>(SignalError::Unknown(sig)) <==> forall|i: int|
            0 <= i < old(store)@.len() ==> (#[trigger] old(store)@[i]).sig != sig,
        r is Err ==> final(store)@ == old(store)@,
        old(store)@[at].sig == sig ==> {
            let slot = old(store)@[at];
            let late = slot.held is Some && now.0 < (slot.held->0).written.0;
            &&& r == Err::<(), SignalError>(SignalError::TickBehind(sig)) <==> late
            &&& r is Ok <==> !late
            &&& r is Ok ==> (final(store)@[at].held matches Some(held) && held.seen == seen
                && held.written == now)
            &&& r is Ok ==> final(store)@[at].sig == sig && final(store)@[at].limits == slot.limits
        },
        old(store)@[at].sig != sig ==> final(store)@[at] == old(store)@[at],
{
    let before = old(store)@;
    if crate::signals::registered(before, sig) {
        let p = crate::signals::place(before, sig);
        assert(before[p].sig == sig);
        if before[at].sig == sig && p != at {
            if p < at {
                assert(before[p].sig@ < before[at].sig@);
            } else {
                assert(before[at].sig@ < before[p].sig@);
            }
        }
    }
}

/// A behaviour acts on a value exactly when the signal has one that is current
/// and of a provenance the behaviour accepts; every other reading is refused as
/// what it is.
pub proof fn law_only_a_current_value_is_acted_on<const N: usize>(
    store: Signals<N>,
    sig: Id,
    now: Tick,
    accepts: ProvenanceSet,
    r: Result<Eligible, Ineligible>,
)
    requires
        store.wf(),
        call_ensures(Signals::<N>::current, (&store, sig, now, accepts), r),
    ensures
        ({
            let read = store.spec_sample(sig, now);
            &&& r is Ok <==> (read matches Ok(sample) && sample.value is Some && sample.q.validity()
                == Validity::Current && accepts.has(sample.q.provenance()))
            &&& r matches Ok(given) ==> Some(given.value) == read->Ok_0.value && given.provenance
                == read->Ok_0.q.provenance()
            &&& read matches Err(why) ==> r == Err::<Eligible, Ineligible>(Ineligible::Store(why))
            &&& read matches Ok(sample) ==> {
                &&& sample.value is None ==> r == Err::<Eligible, Ineligible>(
                    Ineligible::NoValue(sample.q.validity()),
                )
                &&& sample.value is Some && sample.q.validity() == Validity::Stale ==> r == Err::<
                    Eligible,
                    Ineligible,
                >(Ineligible::Stale(sample.q.provenance()))
                &&& sample.value is Some && sample.q.validity() == Validity::Current
                    && !accepts.has(sample.q.provenance()) ==> r == Err::<Eligible, Ineligible>(
                    Ineligible::Provenance(sample.q.provenance()),
                )
            }
        }),
{
}

/// A set of provenances holds what it was made of and nothing else, and no
/// provenance at all is in none.
pub proof fn law_a_set_holds_what_it_was_made_of(
    members: &[Provenance],
    set: ProvenanceSet,
    asked: Provenance,
    held: bool,
)
    requires
        call_ensures(ProvenanceSet::of, (members,), set),
        call_ensures(ProvenanceSet::contains, (set, asked), held),
    ensures
        held <==> asked != Provenance::Nowhere && exists|i: int|
            0 <= i < members@.len() && #[trigger] members@[i] == asked,
{
}

/// The generator starts on a counted charge under either rule, on an estimate
/// only where somebody accepted one, and on nothing else.
pub proof fn law_a_charge_is_acted_on_where_it_counts(
    rule: ChargeSource,
    set: ProvenanceSet,
    asked: Provenance,
    held: bool,
)
    requires
        call_ensures(ChargeSource::accepts, (rule,), set),
        call_ensures(ProvenanceSet::contains, (set, asked), held),
    ensures
        rule == ChargeSource::CountedOnly ==> (held <==> asked == Provenance::Counted),
        rule == ChargeSource::EstimateAccepted ==> (held <==> asked == Provenance::Counted || asked
            == Provenance::Estimated),
{
}

/// What a pin means for the rail: driven, its level; not driven, what the board
/// leaves it at; handed to something else, nothing.
pub proof fn law_a_pin_means_what_the_board_makes_it(
    revision: Revision,
    pin: PinState,
    r: RailReadout,
)
    requires
        call_ensures(RailReadout::of, (revision, pin), r),
    ensures
        r.pin == pin,
        pin == PinState::DrivenHigh ==> r.rail == RailState::On,
        pin == PinState::DrivenLow ==> r.rail == RailState::Off,
        pin == PinState::HighImpedance && revision == Revision::A ==> r.rail == RailState::Off,
        pin == PinState::HighImpedance && revision == Revision::B ==> r.rail == RailState::On,
        pin == PinState::Alternate ==> r.rail == RailState::Unknown,
{
}

/// On revision B alone the strap is wired and a stop mode is allowed.
pub proof fn law_only_the_rework_may_stop(
    revision: Revision,
    strap: StrapRoute,
    stop: StopMode,
)
    requires
        call_ensures(Revision::strap_route, (revision,), strap),
        call_ensures(Revision::stop_mode, (revision,), stop),
    ensures
        strap == StrapRoute::Wired <==> revision == Revision::B,
        stop == StopMode::Allowed <==> revision == Revision::B,
{
}

/// A boot's record says what was read, and on revision A that the module was
/// power-cycled.
pub proof fn law_a_boot_record_says_what_was_read(
    cause: ResetCause,
    blame: Option<Blame>,
    rtc: RtcClock,
    backup: BackupDomain,
    revision: Revision,
    r: BootRecord,
)
    requires
        call_ensures(BootRecord::new, (cause, blame, rtc, backup, revision), r),
    ensures
        r.cause == cause && r.blame == blame && r.rtc == rtc && r.backup == backup && r.revision
            == revision,
        r.module_rail_cycled <==> revision == Revision::A,
{
}

/// What a boot carries of the ladder: the cuts of a record of an earlier boot,
/// none where there was no record, and the full ladder where it does not read or
/// names this boot or a later one.
pub proof fn law_a_record_lost_is_a_full_ladder(
    held: &Held<CutsRecord>,
    boot: BootCount,
    r: CarriedCuts,
)
    requires
        boot@ > 0,
        call_ensures(CutsRecord::carried, (held, boot), r),
    ensures
        *held is Corrupt || *held is Malformed ==> r.cuts.held() == 3 && r.missed == 0,
        *held is Absent ==> r.cuts.held() == 0 && r.missed == boot@ - 1,
        *held matches Held::Present(record) ==> {
            &&& record@.boot < boot@ ==> r.cuts.held() == record.cuts.held() && record@.boot
                + r.missed + 1 == boot@
            &&& record@.boot >= boot@ ==> r.cuts.held() == 3
        },
{
    crate::cuts::lemma_three(r.cuts, Tick(0));
    crate::cuts::lemma_three(CarriedCuts::spec_full().cuts, Tick(0));
    if let Held::Present(record) = *held {
        crate::cuts::lemma_three(record.cuts, Tick(0));
        crate::cuts::lemma_three(record.cuts.spec_rebased(), Tick(0));
    }
}

/// The output moves only on a reason the part holds: a write that landed gives
/// leave for that reason and is what is kept, one that did not gives none and
/// leaves what was kept.
pub proof fn law_the_output_moves_on_a_kept_reason(
    kept: &mut KeptReason,
    reason: RunReason,
    written: Result<(), Refused>,
    r: Result<Declared, Refused>,
)
    requires
        call_ensures(KeptReason::declare, (kept, reason, written), r),
    ensures
        r is Ok <==> written is Ok,
        r matches Ok(declared) ==> declared@ == reason && final(kept)@ == Some(reason),
        r matches Err(why) ==> written == Err::<(), Refused>(why) && final(kept)@ == old(kept)@,
{
}

/// One release is authorised at a time: the last one given, until it is revoked;
/// and what it replaces comes back.
pub proof fn law_the_last_release_authorised_is_the_one(
    held: &mut CommsRelease,
    release: Release,
    r: Option<Release>,
)
    requires
        call_ensures(CommsRelease::authorise, (held, release), r),
    ensures
        final(held)@ == Some(release@),
        r is Some <==> old(held)@ is Some,
        r matches Some(was) ==> old(held)@ == Some(was@),
{
}

/// A release revoked leaves none, and comes back.
pub proof fn law_a_revoked_release_comes_back(held: &mut CommsRelease, r: Option<Release>)
    requires
        call_ensures(CommsRelease::revoke, (held,), r),
    ensures
        final(held)@ is None,
        r is Some <==> old(held)@ is Some,
        r matches Some(was) ==> old(held)@ == Some(was@),
{
}

/// An image may be installed exactly when a release is authorised, its ten
/// minutes are running and the image's digest is its own.
pub proof fn law_only_the_authorised_digest_is_installed(
    held: CommsRelease,
    digest: &Digest,
    now: Tick,
    r: bool,
)
    requires
        call_ensures(CommsRelease::admits, (&held, digest, now), r),
    ensures
        r <==> (held@ matches Some(release) && release.digest == digest.0@
            && release.authorised_at.0 <= now.0 < release.authorised_at.0 + 600_000),
{
}

/// An address has one to eight bytes and is the bytes it was made of.
pub proof fn law_an_address_is_its_bytes(bytes: &[u8], r: Option<DeviceAddress>)
    requires
        call_ensures(DeviceAddress::new, (bytes,), r),
    ensures
        r is Some <==> 1 <= bytes@.len() <= 8,
        r matches Some(addr) ==> addr@ == bytes@,
{
}

/// Time measured on the tick: what is added comes off again, and nothing is
/// measured backwards.
pub proof fn law_the_tick_adds_up(
    at: Tick,
    by: Millis,
    later: Option<Tick>,
    end: Tick,
    gone: Option<Millis>,
)
    requires
        call_ensures(Tick::after, (at, by), later),
        call_ensures(Tick::since, (end, at), gone),
    ensures
        later is Some <==> at.0 + by.0 <= u64::MAX,
        later matches Some(then) ==> then.0 == at.0 + by.0,
        later == Some(end) ==> gone == Some(by),
        gone is Some <==> end.0 >= at.0,
        gone matches Some(span) ==> at.0 + span.0 == end.0,
{
}

/// A device whose presence is set holds it, with the one it held before beside
/// it where the two differ; what was announced of it does not move, and nothing
/// else of the site does. Only a device that is not held is refused.
pub proof fn law_a_presence_set_is_held(
    site: &mut Site,
    dev: u16,
    presence: Presence,
    r: Result<(), SiteError>,
    k: int,
)
    requires
        old(site)@.wf(),
        call_ensures(Site::presence, (site, dev, presence), r),
        0 <= k < old(site)@.presence.len(),
    ensures
        ({
            let was = old(site)@.presence[k];
            let is = final(site)@.presence[k];
            &&& was.dev == dev ==> r is Ok && is.held == presence && is.dev == dev && is.announced
                == was.announced && (was.held == presence ==> is.before == was.before) && (was.held
                != presence ==> is.before == was.held)
            &&& was.dev != dev ==> is == was
            &&& final(site)@.slots == old(site)@.slots
            &&& final(site)@.tables == old(site)@.tables
            &&& final(site)@.announced == old(site)@.announced
            &&& final(site)@.owed == old(site)@.owed
        }),
        (forall|i: int|
            0 <= i < old(site)@.presence.len() ==> (#[trigger] old(site)@.presence[i]).dev != dev)
            ==> r == Err::<(), SiteError>(SiteError::UnknownDevice(dev)) && final(site)@ == old(
            site,
        )@,
{
    let before = old(site)@.presence;
    crate::site_laws::lemma_a_device_has_one_place(before, dev, 0);
    if before[k].dev == dev {
        crate::site_laws::lemma_device_place(before, k, 0);
    }
}

/// A record that landed is told to the concern table where it is one of its own,
/// with where it is; one that did not is handed back to it. No other record is.
pub proof fn law_a_concerns_record_goes_back_to_its_table(
    site: &mut Site,
    token: &Token,
    body: &[u8],
    seq: u64,
    landed: Option<(ConcernRecord, u64)>,
    back: Option<ConcernRecord>,
)
    requires
        call_ensures(Site::committed, (token, seq), landed),
        call_ensures(Site::not_committed, (site, token, body), back),
    ensures
        *token matches Token::Concern(record) ==> landed == Some((record, seq)) && back == Some(
            record,
        ) && final(site)@ == old(site)@,
        !(*token is Concern) ==> landed is None && back is None,
{
}

/// A raise carries the place in the log of the record that opens it, and nothing
/// else of a record moves with where it goes.
pub proof fn law_a_raise_carries_its_place(record: ConcernRecord, seq: u64, r: ConcernRecord)
    requires
        call_ensures(ConcernRecord::at, (record, seq), r),
    ensures
        record is Changed ==> r == record,
        record matches ConcernRecord::Raised(was) ==> (r matches ConcernRecord::Raised(is)
            && is.concern.seq == seq && is.rev == was.rev && is.concern.cid == was.concern.cid
            && is.concern.subject == was.concern.subject && is.concern.cond == was.concern.cond
            && is.concern.sev == was.concern.sev && is.concern.state == was.concern.state
            && is.concern.age == was.concern.age && is.concern.since == was.concern.since
            && is.concern.code == was.concern.code),
{
}

/// A window opened by a request has that one and no other: the same number again
/// is a replay, every higher one is taken, and so are the four below it.
pub proof fn law_a_window_opens_with_its_request(opened: ReqId, window: ReqWindow, id: u32)
    requires
        call_ensures(ReqWindow::opened_by, (opened,), window),
    ensures
        window@.verdict(opened.0) == Err::<(), OutOfWindow>(OutOfWindow::Replayed),
        id > opened.0 ==> window@.verdict(id) is Ok,
        id < opened.0 <= id + 4 ==> window@.verdict(id) is Ok,
        id + 4 < opened.0 ==> window@.verdict(id) == Err::<(), OutOfWindow>(
            OutOfWindow::BelowWindow,
        ),
{
    assert(window@.has(opened.0));
    if id != opened.0 {
        assert(!window@.has(id));
    }
}

/// A secret and a key are refused exactly where every byte is zero, and are
/// otherwise what they were made of.
pub proof fn law_only_nothing_but_zeros_is_no_secret(
    device_id: [u8; 16],
    printed: [u8; 32],
    secret: Result<Secret, NoEntropy>,
    key: Result<ControllerKey, NoEntropy>,
)
    requires
        call_ensures(Secret::new, (device_id, printed), secret),
        call_ensures(ControllerKey::new, (printed,), key),
    ensures
        secret is Ok <==> exists|i: int| 0 <= i < 32 && #[trigger] printed@[i] != 0,
        key is Ok <==> exists|i: int| 0 <= i < 32 && #[trigger] printed@[i] != 0,
        secret matches Ok(made) ==> made@.device_id == device_id@ && made@.printed == printed@,
        key matches Ok(made) ==> made@ == printed@,
{
    assert(printed@.len() == 32);
}

/// A text is taken whole or not at all: up to its cap in bytes it is the text,
/// past it it is refused with its length.
pub proof fn law_a_text_is_taken_whole(text: &str, r: Result<Text<32>, TooLong>)
    requires
        call_ensures(Text::<32>::new, (text,), r),
    ensures
        r is Ok <==> encode_utf8(text@).len() <= 32,
        r matches Ok(held) ==> held@.bytes() == encode_utf8(text@),
        r matches Err(why) ==> why.cap == 32 && why.len == encode_utf8(text@).len(),
{
}

/// A signal a batch declares is among those it declares.
proof fn lemma_declared_signal(batch: Seq<Descriptor>, j: int)
    requires
        0 <= j < batch.len(),
        batch[j] is Signal,
    ensures
        signals_of(batch).contains(batch[j]->Signal_0),
    decreases batch.len(),
{
    let all = signals_of(batch);
    if j == batch.len() - 1 {
        assert(all.last() == batch[j]->Signal_0);
    } else {
        let front = batch.drop_last();
        assert(front[j] == batch[j]);
        lemma_declared_signal(front, j);
        let before = signals_of(front);
        let k = choose|k: int| 0 <= k < before.len() && before[k] == batch[j]->Signal_0;
        assert(all[k] == before[k]);
    }
}

/// A device a batch declares is among those it declares.
proof fn lemma_declared_device(batch: Seq<Descriptor>, j: int)
    requires
        0 <= j < batch.len(),
        batch[j] is Device,
    ensures
        devices_of(batch).contains(batch[j]->Device_0),
    decreases batch.len(),
{
    let all = devices_of(batch);
    if j == batch.len() - 1 {
        assert(all.last() == batch[j]->Device_0);
    } else {
        let front = batch.drop_last();
        assert(front[j] == batch[j]);
        lemma_declared_device(front, j);
        let before = devices_of(front);
        let k = choose|k: int| 0 <= k < before.len() && before[k] == batch[j]->Device_0;
        assert(all[k] == before[k]);
    }
}

/// A batch that is refused changes nothing of the site. One that is applied
/// moves the revision up by one and is owed to the log there; leaves every
/// signal and every device there was as it was; and starts each signal it
/// declares unwritten, with the limits it declares, and each device as never
/// seen.
pub proof fn law_a_batch_is_applied_whole(
    site: &mut Site,
    reason: TopologyChangeReason,
    batch: &[Descriptor],
    r: Result<(), SiteError>,
    k: int,
)
    requires
        call_ensures(Site::apply, (site, reason, batch), r),
    ensures
        r is Err ==> final(site)@ == old(site)@,
        r is Ok ==> {
            &&& final(site)@.tables.rev == old(site)@.tables.rev + 1
            &&& final(site)@.owed matches Some(owed) && owed.rev == final(site)@.tables.rev
                && owed.reason == reason
            &&& 0 <= k < old(site)@.slots.len() ==> final(site)@.slots.contains(
                old(site)@.slots[k],
            )
            &&& 0 <= k < batch@.len() && batch@[k] is Signal ==> {
                let signal = batch@[k]->Signal_0;
                &&& final(site)@.slots.contains(
                    Slot { sig: signal.sig, limits: signal.limits, held: None },
                )
                &&& final(site)@.announced.contains(
                    Announced {
                        sig: signal.sig,
                        q: SignalQuality::spec_of(Validity::Initialising, Provenance::Nowhere),
                    },
                )
            }
            &&& 0 <= k < batch@.len() && batch@[k] is Device ==> final(site)@.presence.contains(
                Seen {
                    dev: (batch@[k]->Device_0).dev,
                    held: Presence::NeverSeen,
                    before: Presence::NeverSeen,
                    announced: Presence::NeverSeen,
                },
            )
            &&& 0 <= k < old(site)@.presence.len() ==> final(site)@.presence[k] == old(
                site,
            )@.presence[k]
            &&& 0 <= k < old(site)@.announced.len() ==> final(site)@.announced[k] == old(
                site,
            )@.announced[k]
        },
        old(site)@.tables.rev == u32::MAX ==> r is Err,
{
    if r is Ok {
        let before = old(site)@;
        let after = final(site)@;
        if 0 <= k < batch@.len() && batch@[k] is Signal {
            let signal = batch@[k]->Signal_0;
            let fresh = signals_of(batch@);
            lemma_declared_signal(batch@, k);
            let i = choose|i: int| 0 <= i < fresh.len() && fresh[i] == signal;
            assert(after.announced[before.announced.len() + i].sig == signal.sig);
            assert(fresh[i] == signal);
        }
        if 0 <= k < batch@.len() && batch@[k] is Device {
            let device = batch@[k]->Device_0;
            let fresh = devices_of(batch@);
            lemma_declared_device(batch@, k);
            let i = choose|i: int| 0 <= i < fresh.len() && fresh[i] == device;
            assert(after.presence[before.presence.len() + i].dev == device.dev);
        }
    }
}

/// A record a tick hands out is under its own kind and carries what to put back
/// if it does not land; an error hands out none.
pub proof fn law_a_record_goes_out_under_its_kind(
    site: &mut Site,
    now: Tick,
    seq: u64,
    tally: &mut Tally,
    body: &mut [u8; RECORD_BODY],
    r: Result<Due, OwedError>,
)
    requires
        call_ensures(Site::next_owed, (site, now, seq, tally, body), r),
    ensures
        r matches Ok(Due::Record(owed)) ==> {
            &&& owed.len <= 230
            &&& owed.token is Topology <==> owed.kind.0 == 0x0901
            &&& owed.token is Validity <==> owed.kind.0 == 0x0102
            &&& owed.token is Presence <==> owed.kind.0 == 0x0902
            &&& owed.token is Topology || owed.token is Validity || owed.token is Presence
            &&& owed.token matches Token::Topology(changed) ==> old(site)@.owed == Some(changed)
        },
        r matches Ok(Due::Concern(ask)) ==> ask.rev == old(site)@.tables.rev && ask.now == now
            && ask.seq == seq && old(tally).concerns < 4,
        r is Ok && !(r->Ok_0 is Record) ==> final(body)@ == old(body)@,
        final(site)@.tables == old(site)@.tables,
        final(site)@.slots == old(site)@.slots,
{
}

/// A concern's record goes out under the kind of what it is, a raise or a change,
/// and is counted; where the table had none nothing is.
pub proof fn law_a_concern_handed_out_is_counted(
    ask: ConcernAsk,
    handed: Option<ConcernRecord>,
    tally: &mut Tally,
    body: &mut [u8; RECORD_BODY],
    r: Result<Due, OwedError>,
)
    requires
        call_ensures(
            Site::concern_handed,
            (ask, Ok::<Option<ConcernRecord>, km43::ConcernsError>(handed), tally, body),
            r,
        ),
        old(tally).concerns < 4,
    ensures
        handed is None ==> r == Ok::<Due, OwedError>(Due::Nothing) && *final(tally) == *old(tally),
        handed matches Some(record) ==> {
            &&& r matches Ok(Due::Record(owed)) && (owed.kind.0 == 0x0501 <==> record is Raised) && (
            owed.kind.0 == 0x0502 <==> record is Changed) && owed.token is Concern
            &&& final(tally).concerns == old(tally).concerns + 1
            &&& final(tally).topology == old(tally).topology
            &&& final(tally).validity == old(tally).validity
            &&& final(tally).presence == old(tally).presence
        },
{
}

/// A request for readings that is answered carries where the log stands, the
/// revision held, how many signals it selects and the page from its cursor; one
/// that is refused carries its reason and no page.
pub proof fn law_readings_carry_their_page(
    site: &Site,
    request: &ReadSignals,
    seq: u64,
    now: Tick,
    dst: &mut [u8],
    r: Result<usize, ReadingsFailed>,
)
    requires
        call_ensures(Site::readings, (site, request, seq, now, dst), r),
        r is Ok,
    ensures
        ({
            let tables = site@.tables;
            let picked = selection(tables, request.sel@);
            let page = gathered(
                site@.slots,
                picked,
                now,
                request.from,
                Paged { rows: Seq::empty(), next: 0 },
            );
            let outcome = readings_outcome(tables, *request);
            let front = final(dst)@.take(r->Ok_0 as int);
            let total = picked.len() as u16;
            &&& outcome is Answered ==> page is Ok && Some(front) == readings_image(
                seq,
                tables.rev,
                1,
                total,
                Some((page->Ok_0.rows, page->Ok_0.next)),
            )
            &&& outcome is Superseded ==> Some(front) == readings_image(
                seq,
                tables.rev,
                2,
                total,
                None,
            )
            &&& outcome is UnknownSelector ==> Some(front) == readings_image(
                seq,
                tables.rev,
                3,
                total,
                None,
            )
            &&& outcome is OutOfRange ==> Some(front) == readings_image(
                seq,
                tables.rev,
                4,
                total,
                None,
            )
        }),
{
    let tables = site@.tables;
    let picked = selection(tables, request.sel@);
    let page = gathered(
        site@.slots,
        picked,
        now,
        request.from,
        Paged { rows: Seq::empty(), next: 0 },
    );
    let outcome = readings_outcome(tables, *request);
    let image = readings_image(
        seq,
        tables.rev,
        outcome.spec_number(),
        picked.len() as u16,
        if outcome is Answered {
            Some((page->Ok_0.rows, page->Ok_0.next))
        } else {
            None
        },
    );
    assert(image is Some);
    assert(final(dst)@.take(r->Ok_0 as int) =~= image->0);
}

/// A sweep of presences that goes out is the body of the revision held and of
/// entries that name every device but the controller itself whose presence is
/// not as it was last announced, with the presence it holds and the one before;
/// and after it each of them is announced at what it holds.
pub proof fn law_a_presence_record_names_every_device_that_moved(
    site: &mut Site,
    now: Tick,
    seq: u64,
    tally: &mut Tally,
    body: &mut [u8; RECORD_BODY],
    r: Result<Due, OwedError>,
    k: int,
)
    requires
        call_ensures(Site::next_owed, (site, now, seq, tally, body), r),
        r matches Ok(Due::Record(owed)) && owed.token is Presence,
        0 <= k < old(site)@.presence.len(),
        old(site)@.presence[k].dev != 0,
    ensures
        final(site)@.presence[k].announced == old(site)@.presence[k].held,
        final(site)@.presence[k].held == old(site)@.presence[k].held,
        exists|entries: Seq<(u16, u8, u8)>|
            {
                let seen = old(site)@.presence[k];
                let bytes = #[trigger] presence_image(old(site)@.tables.rev, entries);
                &&& final(body)@.take(bytes.len() as int) == bytes
                &&& seen.held != seen.announced ==> entries.contains(
                    (seen.dev, seen.held.spec_number(), seen.before.spec_number()),
                )
            },
{
    let came = owed_next(old(site)@, now, *old(tally));
    law_a_tick_names_every_presence_that_moved(old(site)@, now, *old(tally), k);
    law_a_tick_speaks_in_order(old(site)@, now, *old(tally));
    if let OwedWhat::Presence(entries, prevs) = came.what {
        let bytes = presence_image(old(site)@.tables.rev, entries);
        assert(final(body)@.take(bytes.len() as int) =~= bytes);
    }
}

/// A check-in is kept for its task at its moment and for no other task; and the
/// feed asked for right then is not withheld on that task's account.
pub proof fn law_a_check_in_is_kept(
    roll: &mut Rollcall,
    task: Task,
    at: Tick,
    other: Task,
    asked: Rollcall,
    feed: Feed,
)
    requires
        call_ensures(Rollcall::check_in, (roll, task, at), ()),
        asked@ == final(roll)@,
        call_ensures(Rollcall::verdict, (&asked, at), feed),
    ensures
        final(roll)@[task.place() as int] == Some(at),
        other != task ==> final(roll)@[other.place() as int] == old(roll)@[other.place() as int],
        feed != Feed::NobodyOnTheRoll,
        feed matches Feed::Withheld(blame) ==> blame.task != task,
{
    old(roll).lemma_len();
    law_places_tell_tasks_apart(task, other);
    assert(asked@[task.place() as int] is Some);
}

/// A task retired is off the roll, and no other task is.
pub proof fn law_a_retired_task_is_off_the_roll(roll: &mut Rollcall, task: Task, other: Task)
    requires
        call_ensures(Rollcall::retire, (roll, task), ()),
    ensures
        final(roll)@[task.place() as int] is None,
        other != task ==> final(roll)@[other.place() as int] == old(roll)@[other.place() as int],
{
    old(roll).lemma_len();
    law_places_tell_tasks_apart(task, other);
}

/// Cuts that landed are known to be on the part and are not due again; after a
/// write that did not land nothing is known, and any cuts are due a second later.
pub proof fn law_cuts_that_landed_are_known(
    part: &mut CutsOnPart,
    cuts: RecentCuts,
    other: &mut CutsOnPart,
    failed: Tick,
    now: Tick,
    landed_due: bool,
    failed_due: bool,
)
    requires
        call_ensures(CutsOnPart::landed, (part, cuts), ()),
        call_ensures(CutsOnPart::due, (&*final(part), cuts, now), landed_due),
        call_ensures(CutsOnPart::unknown, (other, failed), ()),
        call_ensures(CutsOnPart::due, (&*final(other), cuts, now), failed_due),
        failed.0 + 1_000 <= u64::MAX,
    ensures
        !landed_due,
        failed_due <==> now.0 >= failed.0 + 1_000,
{
}

/// A client seated in a slot is found there, and nobody else moves.
pub proof fn law_a_client_seated_is_found(
    clients: &mut Clients,
    id: ClientId,
    occupant: Occupant,
    other: ClientId,
)
    requires
        old(clients)@.len() == 8,
        1 <= id@ <= 8,
        call_ensures(Clients::seat, (clients, id, occupant), ()),
    ensures
        occupant_of(final(clients)@, id) == Some(occupant@),
        other != id ==> occupant_of(final(clients)@, other) == occupant_of(old(clients)@, other),
{
    ClientId::same_number(id, other);
}

/// Freeing every slot leaves nobody in any.
pub proof fn law_freeing_every_slot_leaves_nobody(clients: &mut Clients, id: ClientId)
    requires
        call_ensures(Clients::free_all, (clients,), ()),
    ensures
        occupant_of(final(clients)@, id) is None,
{
}

} // verus!
