//! The site as the reading plane sees it: the one store, the descriptors that
//! say what each reading is, and what a client has been told about each.
//!
//! The records a tick owes are derived, never queued. Each signal and device
//! keeps the last value a record announced for it, and a tick compares that
//! with what it is now. What does not fit one tick is still different from
//! what was announced, so the next tick finds it again; nothing is dropped
//! because nothing was ever enqueued. The sweep starts where the last one
//! stopped, so a signal that flaps every tick cannot keep the ones after it
//! waiting for ever.
//!
//! A record that does not reach the log is given back with
//! [`Site::not_committed`], and what it announced is owed again. Concerns are
//! a table of their own: the tick says when to ask it.

use crate::bytes::spliced;
use crate::concern::{write_record, ConcernRecord};
use crate::reading::{Id, Provenance, Sample, SignalQuality, Validity};
use crate::record::MAX_PAYLOAD;
use crate::signals::{
    place, registered, runs_begun, Observation, SignalError, Signals, SiteSignals, Slot,
};
use crate::site_rows::{
    Descriptor, EventKind, Presence, ReadSignals, ReadingsOutcome, Sel, SiteDevice, SiteSignal,
    TopologyChangeReason, TopologyChanged, CONCERN_CHANGED, CONCERN_RAISED,
    DEVICE_PRESENCE_CHANGED, SIGNAL_VALIDITY_CHANGED, TOPOLOGY_CHANGED,
};
use crate::tick::Tick;
use crate::topology::{
    changed_by, find_device, find_signal, known, moved, selected_by, take_all, Paged, Tables, Taking, Topology,
    TopologyError, SITE_DEVICES, SITE_SIGNALS,
};
use crate::wire::{
    all_read, new_presences, new_readings, new_sweep, presence_entries, presence_image,
    presence_rev, push_change, push_presence, push_sample, read_sweep, readings_image,
    readings_next, readings_rows, sample_fits, sample_image, sweep_entries, sweep_of, sweep_rev,
    topology_image, validity_image, write_presences, write_readings, write_sweep, write_topology,
};
use vstd::prelude::*;

verus! {

broadcast use {Id::same_number_same_id, SignalQuality::is_its_halves, SignalQuality::halves};

/// The concern records one tick hands out at most.
pub const MAX_CONCERN_EVENTS_PER_TICK: usize = 4;

/// The class A records one tick can owe from the reading plane.
pub const TICK_RECORDS: usize = 1 + 1 + 1 + MAX_CONCERN_EVENTS_PER_TICK;

/// What a record spends around its body.
pub const EVENT_OVERHEAD: usize = 1 + 1 + 9 + 1 + 9 + 1 + 3 + 1;

/// The widest body one ring record holds.
pub const RECORD_BODY: usize = 230;

/// A sweep's own bytes around its entries.
pub const SWEEP_OVERHEAD: usize = 1 + 1 + 5 + 1 + 3;

/// The widest entry of a sweep of validities.
pub const VCHANGE_MAX_BYTES: usize = 11;

/// The widest entry of a sweep of presences.
pub const PCHANGE_MAX_BYTES: usize = 9;

/// Signals one sweep carries: as many of the widest entry as one record holds.
pub const SWEEP_ENTRIES: usize = 19;

/// Devices one sweep carries.
pub const PRESENCE_ENTRIES: usize = 24;

/// The widths agree: a record's body is what a payload leaves for it, a sweep
/// is as many entries as a body holds, every device fits one sweep, and one
/// tick of records fits a session's queue of sixteen with room to spare.
pub proof fn law_the_widths_agree()
    ensures
        RECORD_BODY == MAX_PAYLOAD - EVENT_OVERHEAD,
        SWEEP_ENTRIES == (RECORD_BODY - SWEEP_OVERHEAD) / VCHANGE_MAX_BYTES as int,
        PRESENCE_ENTRIES == (RECORD_BODY - SWEEP_OVERHEAD) / PCHANGE_MAX_BYTES as int,
        PRESENCE_ENTRIES >= SITE_DEVICES,
        TICK_RECORDS < 16,
{
}

/// Why the site refused something.
#[derive(Debug, Clone, Copy, PartialEq, Eq)]
pub enum SiteError {
    /// The descriptors refused the batch.
    Topology(TopologyError),
    /// The store refused the reading or the registration.
    Store(SignalError),
    /// No device of that id.
    UnknownDevice(u16),
}

/// What one tick has handed out so far.
#[derive(Debug, Clone, Copy, PartialEq, Eq, Structural)]
pub struct Tally {
    /// Whether the sweep of validities was looked for.
    pub validity: bool,
    /// Whether the sweep of presences was looked for.
    pub presence: bool,
    /// Whether a topology change was handed out.
    pub topology: bool,
    /// The concern records handed out.
    pub concerns: usize,
}

impl Default for Tally {
    fn default() -> (r: Self)
        ensures
            r == (Tally { validity: false, presence: false, topology: false, concerns: 0 }),
    {
        Tally::new()
    }
}

impl Tally {
    /// A tick with nothing handed out.
    pub fn new() -> (r: Self)
        ensures
            r == (Tally { validity: false, presence: false, topology: false, concerns: 0 }),
    {
        Tally { validity: false, presence: false, topology: false, concerns: 0 }
    }
}

/// A device a sweep of presences names, and the presence it had been announced
/// at before, for putting back if the record does not land.
#[derive(Debug, Clone, Copy, PartialEq, Eq, Structural)]
pub struct Prev {
    /// The device.
    pub dev: u16,
    /// What it had been announced at.
    pub announced: Presence,
}

/// A record handed out and not yet known to have landed: what to put back if
/// it does not.
#[derive(Debug, Clone, PartialEq, Eq)]
pub enum Token {
    /// A sweep of validities; its body names each signal and what was
    /// announced before.
    Validity,
    /// A sweep of presences, and the presence each device had been announced
    /// at.
    Presence(Vec<Prev>),
    /// A topology change.
    Topology(TopologyChanged),
    /// A concern record, whose table puts it back.
    Concern(ConcernRecord),
}

/// A record the tick owes: its kind, its body at the head of the buffer it was
/// written into, and what it announced.
#[derive(Debug, Clone, PartialEq, Eq)]
pub struct Owed {
    /// The event kind.
    pub kind: EventKind,
    /// The body's length.
    pub len: usize,
    /// What it announced.
    pub token: Token,
}

/// What a tick does next.
#[derive(Debug, Clone, PartialEq, Eq)]
pub enum Due {
    /// Hand this record to the log.
    Record(Owed),
    /// Ask the concern table for one record.
    Concern(ConcernAsk),
    /// Nothing more: the tick owes no more or has handed out all it may.
    Nothing,
}

/// What the concern table is asked for: one record it owes.
#[derive(Debug, Clone, Copy, PartialEq, Eq, Structural)]
pub struct ConcernAsk {
    /// The topology revision the record is made under.
    pub rev: u32,
    /// When.
    pub now: Tick,
    /// The position the log will give the record.
    pub seq: u64,
}

/// Why an owed record was not written.
#[derive(Debug, Clone, Copy, PartialEq, Eq)]
pub enum OwedError {
    /// The store refused a sample.
    Store(SignalError),
    /// A sweep or a topology body was refused.
    Change(km43::ChangeError),
    /// A concern body was refused.
    Concern(km43::ConcernsError),
}

/// Why a readings page was not written.
#[derive(Debug, Clone, Copy, PartialEq, Eq)]
pub enum ReadingsFailed {
    /// The store refused a sample.
    Store(SignalError),
    /// The body was refused.
    Encode(km43::ReadingsError),
}

/// A signal and the quality last announced for it.
#[derive(Debug, Clone, Copy, PartialEq, Eq, Structural)]
pub struct Announced {
    /// The signal.
    pub sig: Id,
    /// The quality.
    pub q: SignalQuality,
}

/// A device's presence: as held now, as held before that, and as last
/// announced.
#[derive(Debug, Clone, Copy, PartialEq, Eq, Structural)]
pub struct Seen {
    /// The device.
    pub dev: u16,
    /// Now.
    pub held: Presence,
    /// Before that.
    pub before: Presence,
    /// As last announced.
    pub announced: Presence,
}

/// The site, as mathematics.
#[verifier::ext_equal]
pub struct SiteView {
    /// The store's slots, in signal order.
    pub slots: Seq<Slot>,
    /// The descriptors.
    pub tables: Tables,
    /// What was announced of each signal, in the order they were declared.
    pub announced: Seq<Announced>,
    /// What is held and was announced of each device, in the order declared.
    pub presence: Seq<Seen>,
    /// The topology change not yet announced.
    pub owed: Option<TopologyChanged>,
    /// Where the next sweep of validities starts.
    pub cursor: int,
}

/// The quality of a signal before its first write.
pub open spec fn initial() -> SignalQuality {
    SignalQuality::spec_of(Validity::Initialising, Provenance::Nowhere)
}

/// The signals a batch declares, in order.
pub open spec fn signals_of(batch: Seq<Descriptor>) -> Seq<SiteSignal>
    decreases batch.len(),
{
    if batch.len() == 0 {
        Seq::empty()
    } else {
        match batch.last() {
            Descriptor::Signal(signal) => signals_of(batch.drop_last()).push(signal),
            _ => signals_of(batch.drop_last()),
        }
    }
}

/// The devices a batch declares, in order.
pub open spec fn devices_of(batch: Seq<Descriptor>) -> Seq<SiteDevice>
    decreases batch.len(),
{
    if batch.len() == 0 {
        Seq::empty()
    } else {
        match batch.last() {
            Descriptor::Device(device) => devices_of(batch.drop_last()).push(device),
            _ => devices_of(batch.drop_last()),
        }
    }
}

/// What a change not yet announced and a new one come to: the newest revision
/// and reason, and every row either added.
pub open spec fn merged(owed: Option<TopologyChanged>, changed: TopologyChanged) -> TopologyChanged {
    match owed {
        Some(owed) => TopologyChanged {
            added: if owed.added + changed.added <= u16::MAX {
                (owed.added + changed.added) as u16
            } else {
                u16::MAX
            },
            removed: if owed.removed + changed.removed <= u16::MAX {
                (owed.removed + changed.removed) as u16
            } else {
                u16::MAX
            },
            ..changed
        },
        None => changed,
    }
}

/// One change for two: the newest revision and reason, and every row either
/// added or removed.
fn merge(owed: Option<TopologyChanged>, changed: TopologyChanged) -> (r: TopologyChanged)
    ensures
        r == merged(owed, changed),
{
    match owed {
        Some(owed) => TopologyChanged {
            rev: changed.rev,
            reason: changed.reason,
            added: owed.added.saturating_add(changed.added),
            removed: owed.removed.saturating_add(changed.removed),
        },
        None => changed,
    }
}

/// What `sig` publishes at `now`.
pub open spec fn sampled(slots: Seq<Slot>, sig: Id, now: Tick) -> Result<Sample, SignalError> {
    if registered(slots, sig) {
        slots[place(slots, sig)].spec_sample(now)
    } else {
        Err(SignalError::Unknown(sig))
    }
}

/// A sweep of validities under way.
#[verifier::ext_equal]
pub struct Swept {
    /// What is announced of each signal.
    pub announced: Seq<Announced>,
    /// Where the next sweep starts.
    pub cursor: int,
    /// The entries taken: signal, quality, and the quality announced before.
    pub entries: Seq<(u16, u8, u8)>,
    /// What stopped it, if the store refused a sample.
    pub failed: Option<SignalError>,
}

/// The sweep from the `step`-th signal after `start`: each whose quality
/// differs from what was last announced is taken and marked announced, until
/// the sweep is full.
pub open spec fn sweep_from(slots: Seq<Slot>, now: Tick, start: int, step: int, so_far: Swept) -> Swept
    decreases SITE_SIGNALS - step,
{
    if step >= SITE_SIGNALS || so_far.entries.len() >= SWEEP_ENTRIES || step < 0 {
        so_far
    } else {
        let at = (start + step) % (SITE_SIGNALS as int);
        if at >= so_far.announced.len() {
            sweep_from(slots, now, start, step + 1, so_far)
        } else {
            let told = so_far.announced[at];
            match sampled(slots, told.sig, now) {
                Err(why) => Swept { failed: Some(why), ..so_far },
                Ok(sample) => if sample.q == told.q {
                    sweep_from(slots, now, start, step + 1, so_far)
                } else {
                    sweep_from(
                        slots,
                        now,
                        start,
                        step + 1,
                        Swept {
                            announced: so_far.announced.update(
                                at,
                                Announced { sig: told.sig, q: sample.q },
                            ),
                            cursor: (at + 1) % (SITE_SIGNALS as int),
                            entries: so_far.entries.push(
                                (told.sig@, sample.q.spec_byte(), told.q.spec_byte()),
                            ),
                            failed: None,
                        },
                    )
                },
            }
        }
    }
}

/// The sweep of validities a site owes at `now`.
pub open spec fn swept(view: SiteView, now: Tick) -> Swept {
    sweep_from(
        view.slots,
        now,
        view.cursor,
        0,
        Swept {
            announced: view.announced,
            cursor: view.cursor,
            entries: Seq::empty(),
            failed: None,
        },
    )
}

/// A sweep of presences under way.
#[verifier::ext_equal]
pub struct Presented {
    /// What is held and announced of each device.
    pub presence: Seq<Seen>,
    /// The entries taken: device, presence, and the one held before.
    pub entries: Seq<(u16, u8, u8)>,
    /// What each device taken had been announced at.
    pub prevs: Seq<Prev>,
    /// Whether an entry that goes nowhere stopped it.
    pub stuck: bool,
}

/// The sweep from the `at`-th device: each whose presence differs from what
/// was last announced is taken and marked announced. The controller itself,
/// device zero, is the session and is never named.
pub open spec fn present_from(at: int, so_far: Presented) -> Presented
    decreases so_far.presence.len() - at,
{
    if at < 0 || at >= so_far.presence.len() {
        so_far
    } else {
        let seen = so_far.presence[at];
        if seen.held == seen.announced || seen.dev == 0 {
            present_from(at + 1, so_far)
        } else if seen.held == seen.before {
            Presented { stuck: true, ..so_far }
        } else {
            present_from(
                at + 1,
                Presented {
                    presence: so_far.presence.update(at, Seen { announced: seen.held, ..seen }),
                    entries: so_far.entries.push(
                        (seen.dev, seen.held.spec_number(), seen.before.spec_number()),
                    ),
                    prevs: so_far.prevs.push(Prev { dev: seen.dev, announced: seen.announced }),
                    stuck: false,
                },
            )
        }
    }
}

/// The sweep of presences a site owes.
pub open spec fn presented(view: SiteView) -> Presented {
    present_from(
        0,
        Presented {
            presence: view.presence,
            entries: Seq::empty(),
            prevs: Seq::empty(),
            stuck: false,
        },
    )
}

/// The position of the first device `dev`.
pub open spec fn device_place(presence: Seq<Seen>, dev: u16, at: int) -> Option<int>
    decreases presence.len() - at,
{
    if at < 0 || at >= presence.len() {
        None
    } else if presence[at].dev == dev {
        Some(at)
    } else {
        device_place(presence, dev, at + 1)
    }
}

/// The position of the first announced signal `sig`.
pub open spec fn told_place(announced: Seq<Announced>, sig: u16, at: int) -> Option<int>
    decreases announced.len() - at,
{
    if at < 0 || at >= announced.len() {
        None
    } else if announced[at].sig@ == sig {
        Some(at)
    } else {
        told_place(announced, sig, at + 1)
    }
}

/// What is announced once the entries of a sweep that did not land are put
/// back: each signal at the quality announced before.
pub open spec fn taken_back(
    announced: Seq<Announced>,
    entries: Seq<Option<(u16, u8, u8)>>,
) -> Seq<Announced>
    decreases entries.len(),
{
    if entries.len() == 0 {
        announced
    } else {
        let so_far = taken_back(announced, entries.drop_last());
        match entries.last() {
            Some((sig, _, prev)) => match (
                told_place(so_far, sig, 0),
                SignalQuality::spec_from_byte(prev),
            ) {
                (Some(at), Some(q)) => so_far.update(at, Announced { sig: so_far[at].sig, q }),
                _ => so_far,
            },
            None => so_far,
        }
    }
}

/// What is held of each device once a sweep of presences that did not land is
/// put back.
pub open spec fn put_back(presence: Seq<Seen>, prevs: Seq<Prev>) -> Seq<Seen>
    decreases prevs.len(),
{
    if prevs.len() == 0 {
        presence
    } else {
        let so_far = put_back(presence, prevs.drop_last());
        match device_place(so_far, prevs.last().dev, 0) {
            Some(at) => so_far.update(at, Seen { announced: prevs.last().announced, ..so_far[at] }),
            None => so_far,
        }
    }
}

/// Whether a request selects a signal.
pub open spec fn asked_for(tables: Tables, sel: Seq<Sel>, signal: SiteSignal) -> bool {
    sel.len() == 0 || exists|i: int|
        0 <= i < sel.len() && selected_by(tables, #[trigger] sel[i], signal)
}

/// The signals a request selects out of the first `n`, in signal order.
pub open spec fn chosen(tables: Tables, sel: Seq<Sel>, n: int) -> Seq<SiteSignal>
    decreases n,
{
    if n <= 0 || n > tables.signals.len() {
        Seq::empty()
    } else {
        let before = chosen(tables, sel, n - 1);
        if asked_for(tables, sel, tables.signals[n - 1]) {
            before.push(tables.signals[n - 1])
        } else {
            before
        }
    }
}

/// The signals a request selects, in signal order.
pub open spec fn selection(tables: Tables, sel: Seq<Sel>) -> Seq<SiteSignal> {
    chosen(tables, sel, tables.signals.len() as int)
}

/// How a request for readings is answered.
pub open spec fn readings_outcome(tables: Tables, request: ReadSignals) -> ReadingsOutcome {
    let picked = selection(tables, request.sel@);
    if request.rev != 0 && request.rev != tables.rev {
        ReadingsOutcome::Superseded
    } else if exists|i: int|
        0 <= i < request.sel@.len() && !known(tables, #[trigger] request.sel@[i]) {
        ReadingsOutcome::UnknownSelector
    } else if request.from != 0 && !(picked.len() > 0 && request.from <= picked.last().sig@) {
        ReadingsOutcome::OutOfRange
    } else {
        ReadingsOutcome::Answered
    }
}

/// A page of samples filled from `picked`, skipping signals below `from`,
/// until it is full; or the first sample the store refused.
pub open spec fn gathered(
    slots: Seq<Slot>,
    picked: Seq<SiteSignal>,
    now: Tick,
    from: u16,
    page: Paged,
) -> Result<Paged, SignalError>
    decreases picked.len(),
{
    if picked.len() == 0 {
        Ok(page)
    } else if picked[0].sig@ < from {
        gathered(slots, picked.skip(1), now, from, page)
    } else {
        match sampled(slots, picked[0].sig, now) {
            Err(why) => Err(why),
            Ok(sample) => {
                let bytes = sample_image(
                    sample.sig@,
                    sample.q.spec_byte(),
                    sample.value,
                    sample.age,
                );
                if sample_fits(page.rows, bytes) {
                    gathered(
                        slots,
                        picked.skip(1),
                        now,
                        from,
                        Paged { rows: page.rows.push(bytes), next: page.next },
                    )
                } else {
                    Ok(Paged { rows: page.rows, next: sample.sig@ })
                }
            },
        }
    }
}

/// Whether each signal is announced once.
pub open spec fn told_once(announced: Seq<Announced>) -> bool {
    forall|i: int, j: int|
        0 <= i < j < announced.len() ==> announced[i].sig@ != announced[j].sig@
}

/// Whether every announced quality is one a reading can have.
pub open spec fn told_honestly(announced: Seq<Announced>) -> bool {
    forall|i: int|
        0 <= i < announced.len() ==> ((#[trigger] announced[i]).q.validity().spec_has_value()
            <==> !(announced[i].q.provenance() is Nowhere))
}

/// Whether each device is held once.
pub open spec fn seen_once(presence: Seq<Seen>) -> bool {
    forall|i: int, j: int|
        0 <= i < j < presence.len() ==> (#[trigger] presence[i]).dev != (
        #[trigger] presence[j]).dev
}

impl SiteView {
    /// The store, the descriptors and what was announced speak of the same
    /// signals and devices.
    pub open spec fn wf(self) -> bool {
        &&& self.tables.wf()
        &&& forall|sig: Id|
            #![trigger registered(self.slots, sig)]
            registered(self.slots, sig) <==> find_signal(self.tables.signals, sig) is Some
        &&& self.slots.len() == self.tables.signals.len()
        &&& runs_begun(self.slots)
        &&& self.announced.len() == self.tables.signals.len()
        &&& self.presence.len() == self.tables.devices.len()
        &&& forall|i: int|
            0 <= i < self.announced.len() ==> registered(
                self.slots,
                (#[trigger] self.announced[i]).sig,
            )
        &&& told_once(self.announced)
        &&& told_honestly(self.announced)
        &&& forall|i: int|
            0 <= i < self.presence.len() ==> find_device(
                self.tables.devices,
                (#[trigger] self.presence[i]).dev,
            ) is Some
        &&& seen_once(self.presence)
        &&& 0 <= self.cursor < SITE_SIGNALS
    }
}

/// The reading plane's one instance.
pub struct Site {
    signals: SiteSignals,
    topology: Topology,
    announced: Vec<Announced>,
    presence: Vec<Seen>,
    topology_owed: Option<TopologyChanged>,
    cursor: usize,
}

impl View for Site {
    type V = SiteView;

    closed spec fn view(&self) -> SiteView {
        SiteView {
            slots: self.signals@,
            tables: self.topology@,
            announced: self.announced@,
            presence: self.presence@,
            owed: self.topology_owed,
            cursor: self.cursor as int,
        }
    }
}

impl Default for Site {
    fn default() -> (r: Self)
        ensures
            r.wf(),
    {
        Site::new()
    }
}

/// A batch that is taken adds exactly the signals and devices it declares, each
/// signal new to the table and to the batch before it.
proof fn lemma_batch_adds(tables: Tables, batch: Seq<Descriptor>, rev: u32, sig: Id)
    requires
        take_all(tables, batch, rev) is Taken,
    ensures
        ({
            let left = take_all(tables, batch, rev)->Taken_0;
            let fresh = signals_of(batch);
            &&& find_signal(left.signals, sig) is Some <==> find_signal(tables.signals, sig)
                is Some || declares(fresh, sig)
            &&& left.signals.len() == tables.signals.len() + fresh.len()
            &&& left.devices.len() == tables.devices.len() + devices_of(batch).len()
        }),
    decreases batch.len(),
{
    if batch.len() > 0 {
        lemma_batch_adds(tables, batch.drop_last(), rev, sig);
        let so_far = take_all(tables, batch.drop_last(), rev)->Taken_0;
        let left = take_all(tables, batch, rev)->Taken_0;
        let had = signals_of(batch.drop_last());
        match batch.last() {
            Descriptor::Signal(signal) => {
                let ids = crate::topology::signal_ids(so_far.signals);
                let at = crate::topology::place_of(ids, signal.sig@ as int);
                crate::topology_laws::lemma_place_inside(ids, signal.sig@ as int);
                assert(left.signals == so_far.signals.insert(at, signal));
                lemma_find_signal_insert(so_far.signals, at, signal, sig);
                let now = signals_of(batch);
                if declares(now, sig) {
                    let i = choose|i: int| 0 <= i < now.len() && (#[trigger] now[i]).sig == sig;
                    if i < had.len() {
                        assert(had[i].sig == sig);
                    }
                }
                if declares(had, sig) {
                    let i = choose|i: int| 0 <= i < had.len() && (#[trigger] had[i]).sig == sig;
                    assert(now[i].sig == sig);
                }
                assert(now[had.len() as int].sig == signal.sig);
            },
            Descriptor::Device(device) => {
                let ids = crate::topology::device_ids(so_far.devices);
                crate::topology_laws::lemma_place_inside(ids, device.dev as int);
            },
            _ => {},
        }
    }
}

/// A batch that is taken names no signal already announced, and none twice.
proof fn lemma_told_once_grows(
    tables: Tables,
    batch: Seq<Descriptor>,
    rev: u32,
    announced: Seq<Announced>,
)
    requires
        take_all(tables, batch, rev) is Taken,
        told_once(announced),
        told_honestly(announced),
        forall|i: int|
            0 <= i < announced.len() ==> find_signal(
                tables.signals,
                (#[trigger] announced[i]).sig,
            ) is Some,
    ensures
        ({
            let all = announced + signals_of(batch).map_values(
                |signal: SiteSignal| Announced { sig: signal.sig, q: initial() },
            );
            let left = take_all(tables, batch, rev)->Taken_0;
            &&& told_once(all)
            &&& told_honestly(all)
            &&& forall|i: int|
                0 <= i < all.len() ==> find_signal(left.signals, (#[trigger] all[i]).sig) is Some
        }),
    decreases batch.len(),
{
    let told = |signal: SiteSignal| Announced { sig: signal.sig, q: initial() };
    let fresh = signals_of(batch);
    let all = announced + fresh.map_values(told);
    if batch.len() == 0 {
        assert(all =~= announced);
    } else {
        lemma_told_once_grows(tables, batch.drop_last(), rev, announced);
        let so_far = take_all(tables, batch.drop_last(), rev)->Taken_0;
        let had = signals_of(batch.drop_last());
        let before = announced + had.map_values(told);
        match batch.last() {
            Descriptor::Signal(signal) => {
                let one = Announced { sig: signal.sig, q: initial() };
                assert(all =~= before.push(one));
                let ids = crate::topology::signal_ids(so_far.signals);
                let at = crate::topology::place_of(ids, signal.sig@ as int);
                crate::topology_laws::lemma_place_inside(ids, signal.sig@ as int);
                assert forall|i: int| 0 <= i < all.len() implies find_signal(
                    so_far.signals.insert(at, signal),
                    (#[trigger] all[i]).sig,
                ) is Some by {
                    lemma_find_signal_insert(so_far.signals, at, signal, all[i].sig);
                    if i < before.len() {
                        assert(find_signal(so_far.signals, before[i].sig) is Some);
                    }
                }
                assert forall|i: int, j: int| 0 <= i < j < all.len() implies all[i].sig@
                    != all[j].sig@ by {
                    assert(find_signal(so_far.signals, before[i].sig) is Some);
                    Id::same_number_same_id(all[i].sig, all[j].sig);
                    if j < before.len() {
                        assert(before[i].sig@ != before[j].sig@);
                    }
                }
                SignalQuality::halves(Validity::Initialising, Provenance::Nowhere);
                assert forall|i: int| 0 <= i < all.len() implies ((
                #[trigger] all[i]).q.validity().spec_has_value() <==> !(all[i].q.provenance()
                    is Nowhere)) by {
                    if i < before.len() {
                        assert(all[i] == before[i]);
                    }
                }
            },
            _ => {},
        }
    }
}

/// A batch that is taken names no device already held, and none twice.
proof fn lemma_seen_once_grows(
    tables: Tables,
    batch: Seq<Descriptor>,
    rev: u32,
    presence: Seq<Seen>,
)
    requires
        take_all(tables, batch, rev) is Taken,
        seen_once(presence),
        forall|i: int|
            0 <= i < presence.len() ==> find_device(tables.devices, (#[trigger] presence[i]).dev)
                is Some,
    ensures
        ({
            let all = presence + devices_of(batch).map_values(
                |device: SiteDevice| never_seen(device.dev),
            );
            let left = take_all(tables, batch, rev)->Taken_0;
            &&& seen_once(all)
            &&& forall|i: int|
                0 <= i < all.len() ==> find_device(left.devices, (#[trigger] all[i]).dev) is Some
        }),
    decreases batch.len(),
{
    let unseen = |device: SiteDevice| never_seen(device.dev);
    let all = presence + devices_of(batch).map_values(unseen);
    if batch.len() == 0 {
        assert(all =~= presence);
    } else {
        lemma_seen_once_grows(tables, batch.drop_last(), rev, presence);
        let so_far = take_all(tables, batch.drop_last(), rev)->Taken_0;
        let had = devices_of(batch.drop_last());
        let before = presence + had.map_values(unseen);
        match batch.last() {
            Descriptor::Device(device) => {
                assert(all =~= before.push(never_seen(device.dev)));
                let row = crate::topology::HeldDevice { device, since: rev };
                let ids = crate::topology::device_ids(so_far.devices);
                let at = crate::topology::place_of(ids, device.dev as int);
                crate::topology_laws::lemma_place_inside(ids, device.dev as int);
                assert forall|i: int| 0 <= i < all.len() implies find_device(
                    so_far.devices.insert(at, row),
                    (#[trigger] all[i]).dev,
                ) is Some by {
                    crate::topology_laws::lemma_find_device_insert(
                        so_far.devices,
                        at,
                        row,
                        all[i].dev,
                    );
                    if i < before.len() {
                        assert(find_device(so_far.devices, before[i].dev) is Some);
                    }
                }
                assert forall|i: int, j: int| 0 <= i < j < all.len() implies (
                #[trigger] all[i]).dev != (#[trigger] all[j]).dev by {
                    assert(find_device(so_far.devices, before[i].dev) is Some);
                    if j < before.len() {
                        assert(before[i].dev != before[j].dev);
                    }
                }
            },
            _ => {},
        }
    }
}

/// Whether one of `fresh` is signal `sig`.
pub open spec fn declares(fresh: Seq<SiteSignal>, sig: Id) -> bool {
    exists|i: int| 0 <= i < fresh.len() && (#[trigger] fresh[i]).sig == sig
}

/// A batch that is taken declares no signal twice and none already held.
proof fn lemma_batch_fresh(tables: Tables, batch: Seq<Descriptor>, rev: u32, n: int)
    requires
        take_all(tables, batch, rev) is Taken,
        0 <= n < batch.len(),
        batch[n] is Signal,
    ensures
        find_signal(tables.signals, batch[n]->Signal_0.sig) is None,
        !declares(signals_of(batch.take(n)), batch[n]->Signal_0.sig),
{
    let sig = batch[n]->Signal_0.sig;
    let front = batch.take(n);
    let next = batch.take(n + 1);
    crate::topology_laws::law_a_batch_is_taken_whole(tables, batch, rev, n);
    crate::topology_laws::law_a_batch_is_taken_whole(tables, batch, rev, n + 1);
    assert(next.drop_last() =~= front);
    assert(next.last() == batch[n]);
    lemma_batch_adds(tables, front, rev, sig);
}

/// A signal put among others is found, and the others still are.
proof fn lemma_find_signal_insert(signals: Seq<SiteSignal>, at: int, row: SiteSignal, sig: Id)
    requires
        0 <= at <= signals.len(),
        find_signal(signals, row.sig) is None,
    ensures
        find_signal(signals.insert(at, row), sig) == (if sig == row.sig {
            Some(row)
        } else {
            find_signal(signals, sig)
        }),
    decreases at,
{
    let more = signals.insert(at, row);
    if at == 0 {
        assert(more.skip(1) =~= signals);
    } else {
        assert(more.skip(1) =~= signals.skip(1).insert(at - 1, row));
        lemma_find_signal_insert(signals.skip(1), at - 1, row, sig);
    }
}

/// Whether the store `now` is the store `before` with the slots of `fresh`
/// added, each unwritten and with the limits it declares.
pub open spec fn store_grew(before: Seq<Slot>, now: Seq<Slot>, fresh: Seq<SiteSignal>) -> bool {
    &&& now.len() == before.len() + fresh.len()
    &&& forall|i: int| 0 <= i < before.len() ==> now.contains(#[trigger] before[i])
    &&& forall|i: int|
        0 <= i < fresh.len() ==> now.contains(
            Slot { sig: (#[trigger] fresh[i]).sig, limits: fresh[i].limits, held: None },
        )
    &&& forall|sig: Id|
        #![trigger registered(now, sig)]
        registered(now, sig) <==> registered(before, sig) || declares(fresh, sig)
}

/// One more slot keeps what was there, and its signal is registered.
proof fn lemma_store_grows(
    before: Seq<Slot>,
    now: Seq<Slot>,
    fresh: Seq<SiteSignal>,
    signal: SiteSignal,
    at: int,
)
    requires
        store_grew(before, now, fresh),
        0 <= at <= now.len(),
    ensures
        store_grew(
            before,
            now.insert(at, Slot { sig: signal.sig, limits: signal.limits, held: None }),
            fresh.push(signal),
        ),
{
    let slot = Slot { sig: signal.sig, limits: signal.limits, held: None };
    let more = now.insert(at, slot);
    let all = fresh.push(signal);
    assert forall|old: Slot| now.contains(old) implies #[trigger] more.contains(old) by {
        let i = choose|i: int| 0 <= i < now.len() && now[i] == old;
        if i < at {
            assert(more[i] == old);
        } else {
            assert(more[i + 1] == old);
        }
    }
    assert(more[at] == slot);
    assert forall|i: int| 0 <= i < all.len() implies more.contains(
        Slot { sig: (#[trigger] all[i]).sig, limits: all[i].limits, held: None },
    ) by {
        if i < fresh.len() {
            assert(all[i] == fresh[i]);
            assert(now.contains(Slot { sig: fresh[i].sig, limits: fresh[i].limits, held: None }));
        }
    }
    assert forall|sig: Id| #![trigger registered(more, sig)] registered(more, sig) <==> registered(
        before,
        sig,
    ) || declares(all, sig) by {
        if registered(more, sig) {
            let i = choose|i: int| 0 <= i < more.len() && (#[trigger] more[i]).sig == sig;
            if i == at {
                assert(all[fresh.len() as int].sig == sig);
            } else {
                let j = if i < at {
                    i
                } else {
                    i - 1
                };
                assert(now[j].sig == sig);
                assert(registered(now, sig));
                if declares(fresh, sig) {
                    let f = choose|f: int|
                        0 <= f < fresh.len() && (#[trigger] fresh[f]).sig == sig;
                    assert(all[f].sig == sig);
                }
            }
        }
        if registered(before, sig) || declares(fresh, sig) {
            assert(registered(now, sig));
            let j = choose|j: int| 0 <= j < now.len() && (#[trigger] now[j]).sig == sig;
            if j < at {
                assert(more[j].sig == sig);
            } else {
                assert(more[j + 1].sig == sig);
            }
        }
        if declares(all, sig) {
            let f = choose|f: int| 0 <= f < all.len() && (#[trigger] all[f]).sig == sig;
            if f < fresh.len() {
                assert(fresh[f].sig == sig);
            } else {
                assert(more[at].sig == sig);
            }
        }
    }
}

/// What a tick hands out next.
pub enum OwedWhat {
    /// A topology change.
    Topology(TopologyChanged),
    /// A sweep of validities.
    Validity(Seq<(u16, u8, u8)>),
    /// A sweep of presences, and what each device had been announced at.
    Presence(Seq<(u16, u8, u8)>, Seq<Prev>),
    /// The concern table's turn.
    Concern,
    /// Nothing more.
    Nothing,
    /// Nothing: the store refused a sample.
    Store(SignalError),
    /// Nothing: an entry of a sweep of presences goes nowhere.
    Stuck,
}

/// What a tick hands out next, and how that leaves the site and the tally.
pub struct OwedNext {
    /// The site.
    pub view: SiteView,
    /// The tally.
    pub tally: Tally,
    /// What is handed out.
    pub what: OwedWhat,
}

/// What a tick hands out next: a topology change, once; then one sweep of
/// validities; then one of presences; then concerns, up to their cap.
pub open spec fn owed_next(view: SiteView, now: Tick, tally: Tally) -> OwedNext {
    if !tally.topology && view.owed is Some {
        OwedNext {
            view: SiteView { owed: None, ..view },
            tally: Tally { topology: true, ..tally },
            what: OwedWhat::Topology(view.owed->0),
        }
    } else if tally.validity {
        owed_presence(view, tally)
    } else {
        let went = swept(view, now);
        let after = SiteView { announced: went.announced, cursor: went.cursor, ..view };
        let told = Tally { validity: true, ..tally };
        match went.failed {
            Some(why) => OwedNext { view: after, tally: told, what: OwedWhat::Store(why) },
            None => if went.entries.len() > 0 {
                OwedNext { view: after, tally: told, what: OwedWhat::Validity(went.entries) }
            } else {
                owed_presence(after, told)
            },
        }
    }
}

/// What a tick hands out next once its sweep of validities is out.
pub open spec fn owed_presence(view: SiteView, tally: Tally) -> OwedNext {
    if tally.presence {
        owed_concern(view, tally)
    } else {
        let went = presented(view);
        let after = SiteView { presence: went.presence, ..view };
        let told = Tally { presence: true, ..tally };
        if went.stuck {
            OwedNext { view: after, tally: told, what: OwedWhat::Stuck }
        } else if went.entries.len() > 0 {
            OwedNext {
                view: after,
                tally: told,
                what: OwedWhat::Presence(went.entries, went.prevs),
            }
        } else {
            owed_concern(after, told)
        }
    }
}

/// What a tick hands out next once its sweeps are out.
pub open spec fn owed_concern(view: SiteView, tally: Tally) -> OwedNext {
    OwedNext {
        view,
        tally,
        what: if tally.concerns < MAX_CONCERN_EVENTS_PER_TICK {
            OwedWhat::Concern
        } else {
            OwedWhat::Nothing
        },
    }
}

/// The site once a record that did not land is given back, `read` being the
/// entries of its body when it is a sweep of validities.
pub open spec fn given_back(
    view: SiteView,
    token: Token,
    read: Option<Seq<Option<(u16, u8, u8)>>>,
) -> SiteView {
    match token {
        Token::Validity => match read {
            Some(entries) => SiteView { announced: taken_back(view.announced, entries), ..view },
            None => view,
        },
        Token::Presence(prevs) => SiteView { presence: put_back(view.presence, prevs@), ..view },
        Token::Topology(changed) => SiteView {
            owed: match view.owed {
                Some(owed) => Some(merged(Some(changed), owed)),
                None => Some(changed),
            },
            ..view
        },
        Token::Concern(_) => view,
    }
}

/// A longer front of a batch declares at least as many signals.
proof fn lemma_signals_grow(batch: Seq<Descriptor>, n: int)
    requires
        0 <= n <= batch.len(),
    ensures
        signals_of(batch.take(n)).len() <= signals_of(batch).len(),
    decreases batch.len() - n,
{
    if n < batch.len() {
        assert(batch.take(n + 1).drop_last() =~= batch.take(n));
        lemma_signals_grow(batch, n + 1);
    } else {
        assert(batch.take(n) =~= batch);
    }
}

/// A device nobody has heard from.
pub open spec fn never_seen(dev: u16) -> Seen {
    Seen {
        dev,
        held: Presence::NeverSeen,
        before: Presence::NeverSeen,
        announced: Presence::NeverSeen,
    }
}

impl Site {
    /// Whether the site's parts agree.
    pub closed spec fn wf(&self) -> bool {
        &&& self@.wf()
        &&& self.signals.wf()
    }

    /// What a well-formed site holds is well-formed.
    pub proof fn lemma_wf(&self)
        requires
            self.wf(),
        ensures
            self@.wf(),
    {
    }

    /// Nothing registered, at topology revision 0.
    pub fn new() -> (r: Self)
        ensures
            r.wf(),
            r@.slots == Seq::<Slot>::empty(),
            r@.tables == crate::topology::no_tables(),
            r@.announced == Seq::<Announced>::empty(),
            r@.presence == Seq::<Seen>::empty(),
            r@.owed is None,
            r@.cursor == 0,
    {
        Site {
            signals: Signals::new(),
            topology: Topology::new(),
            announced: Vec::new(),
            presence: Vec::new(),
            topology_owed: None,
            cursor: 0,
        }
    }

    /// The store, read-only.
    pub fn signals(&self) -> (r: &SiteSignals)
        requires
            self.wf(),
        ensures
            r@ == self@.slots,
            r.wf(),
    {
        &self.signals
    }

    /// The descriptors.
    pub fn topology(&self) -> (r: &Topology)
        requires
            self.wf(),
        ensures
            r@ == self@.tables,
            r.wf(),
    {
        &self.topology
    }

    /// What `sig`'s source said at `now`.
    pub fn write(&mut self, sig: Id, now: Tick, seen: Observation) -> (r: Result<(), SiteError>)
        requires
            old(self).wf(),
        ensures
            final(self).wf(),
            final(self)@.tables == old(self)@.tables,
            final(self)@.announced == old(self)@.announced,
            final(self)@.presence == old(self)@.presence,
            final(self)@.owed == old(self)@.owed,
            final(self)@.cursor == old(self)@.cursor,
            if !registered(old(self)@.slots, sig) {
                &&& r == Err::<(), SiteError>(SiteError::Store(SignalError::Unknown(sig)))
                &&& final(self)@.slots == old(self)@.slots
            } else {
                let at = place(old(self)@.slots, sig);
                let slot = old(self)@.slots[at];
                if slot.held matches Some(held) && now.0 < held.written.0 {
                    &&& r == Err::<(), SiteError>(SiteError::Store(SignalError::TickBehind(sig)))
                    &&& final(self)@.slots == old(self)@.slots
                } else {
                    &&& r == Ok::<(), SiteError>(())
                    &&& final(self)@.slots == old(self)@.slots.update(
                        at,
                        slot.spec_written(now, seen),
                    )
                }
            },
    {
        let wrote = self.signals.write(sig, now, seen);
        proof {
            assert forall|other: Id| registered(self@.slots, other) == registered(
                old(self)@.slots,
                other,
            ) by {
                let before = old(self)@.slots;
                let after = self@.slots;
                if registered(before, other) {
                    let i = choose|i: int| 0 <= i < before.len() && (#[trigger] before[i]).sig
                        == other;
                    assert(after[i].sig == other);
                }
                if registered(after, other) {
                    let i = choose|i: int| 0 <= i < after.len() && (#[trigger] after[i]).sig
                        == other;
                    assert(before[i].sig == other);
                }
            }
        }
        match wrote {
            Ok(()) => Ok(()),
            Err(why) => Err(SiteError::Store(why)),
        }
    }

    /// Device `dev` is now `presence`.
    pub fn presence(&mut self, dev: u16, presence: Presence) -> (r: Result<(), SiteError>)
        requires
            old(self).wf(),
        ensures
            final(self).wf(),
            match device_place(old(self)@.presence, dev, 0) {
                None => {
                    &&& r == Err::<(), SiteError>(SiteError::UnknownDevice(dev))
                    &&& final(self)@ == old(self)@
                },
                Some(at) => {
                    let seen = old(self)@.presence[at];
                    &&& r == Ok::<(), SiteError>(())
                    &&& final(self)@ == (SiteView {
                        presence: if seen.held == presence {
                            old(self)@.presence
                        } else {
                            old(self)@.presence.update(
                                at,
                                Seen { before: seen.held, held: presence, ..seen },
                            )
                        },
                        ..old(self)@
                    })
                },
            },
    {
        let at: usize = match self.find_device(dev) {
            Some(at) => at,
            None => return Err(SiteError::UnknownDevice(dev)),
        };
        let seen = self.presence[at];
        if seen.held != presence {
            self.presence[at] = Seen {
                dev: seen.dev,
                held: presence,
                before: seen.held,
                announced: seen.announced,
            };
        }
        proof {
            assert(self@ =~= SiteView {
                presence: if seen.held == presence {
                    old(self)@.presence
                } else {
                    old(self)@.presence.update(
                        at as int,
                        Seen { before: seen.held, held: presence, ..seen },
                    )
                },
                ..old(self)@
            });
        }
        Ok(())
    }

    fn find_device(&self, dev: u16) -> (r: Option<usize>)
        ensures
            match device_place(self@.presence, dev, 0) {
                Some(place) => r matches Some(at) && at == place && at < self@.presence.len(),
                None => r is None,
            },
    {
        let mut at: usize = 0;
        while at < self.presence.len()
            invariant
                at <= self@.presence.len(),
                device_place(self@.presence, dev, 0) == device_place(
                    self@.presence,
                    dev,
                    at as int,
                ),
            decreases self@.presence.len() - at,
        {
            if self.presence[at].dev == dev {
                return Some(at);
            }
            at = at + 1;
        }
        None
    }

    fn announced_at(&self, sig: u16) -> (r: Option<usize>)
        ensures
            match told_place(self@.announced, sig, 0) {
                Some(place) => r matches Some(at) && at == place && at < self@.announced.len(),
                None => r is None,
            },
    {
        let mut at: usize = 0;
        while at < self.announced.len()
            invariant
                at <= self@.announced.len(),
                told_place(self@.announced, sig, 0) == told_place(
                    self@.announced,
                    sig,
                    at as int,
                ),
            decreases self@.announced.len() - at,
        {
            if self.announced[at].sig.get() == sig {
                return Some(at);
            }
            at = at + 1;
        }
        None
    }

    /// How many signals a batch declares.
    fn declared(batch: &[Descriptor]) -> (r: usize)
        ensures
            r == signals_of(batch@).len(),
    {
        let mut fresh: usize = 0;
        let mut i: usize = 0;
        proof {
            assert(batch@.take(0) =~= Seq::<Descriptor>::empty());
        }
        while i < batch.len()
            invariant
                i <= batch@.len(),
                fresh <= i,
                fresh == signals_of(batch@.take(i as int)).len(),
            decreases batch@.len() - i,
        {
            proof {
                assert(batch@.take(i + 1).drop_last() =~= batch@.take(i as int));
            }
            if let Descriptor::Signal(_) = batch[i] {
                fresh = fresh + 1;
            }
            i = i + 1;
        }
        proof {
            assert(batch@.take(i as int) =~= batch@);
        }
        fresh
    }

    /// Take `batch` into the descriptors under a new revision, registering
    /// each signal in the store with the limits it declares, or refuse all of
    /// it. The change it owes is announced by a later tick.
    pub fn apply(&mut self, reason: TopologyChangeReason, batch: &[Descriptor]) -> (r: Result<
        (),
        SiteError,
    >)
        requires
            old(self).wf(),
        ensures
            final(self).wf(),
            ({
                let before = old(self)@;
                let fresh = signals_of(batch@);
                let rev = (before.tables.rev + 1) as u32;
                if before.slots.len() + fresh.len() > SITE_SIGNALS {
                    &&& r == Err::<(), SiteError>(SiteError::Store(SignalError::Full))
                    &&& final(self)@ == before
                } else if before.tables.rev == u32::MAX {
                    &&& r == Err::<(), SiteError>(
                        SiteError::Topology(TopologyError::RevisionExhausted),
                    )
                    &&& final(self)@ == before
                } else {
                    match take_all(before.tables, batch@, rev) {
                        Taking::Refused(why) => {
                            &&& r == Err::<(), SiteError>(SiteError::Topology(why))
                            &&& final(self)@ == before
                        },
                        Taking::BadRow => {
                            &&& r matches Err(SiteError::Topology(TopologyError::Row(_)))
                            &&& final(self)@ == before
                        },
                        Taking::Taken(taken) => {
                            let after = final(self)@;
                            &&& r == Ok::<(), SiteError>(())
                            &&& after.tables == moved(taken, rev)
                            &&& store_grew(before.slots, after.slots, fresh)
                            &&& after.announced == before.announced + fresh.map_values(
                                |signal: SiteSignal| Announced { sig: signal.sig, q: initial() },
                            )
                            &&& after.presence == before.presence + devices_of(batch@).map_values(
                                |device: SiteDevice| never_seen(device.dev),
                            )
                            &&& after.owed == Some(
                                merged(before.owed, changed_by(taken, reason, rev, batch@.len())),
                            )
                            &&& after.cursor == before.cursor
                        },
                    }
                }
            }),
    {
        let fresh: usize = Site::declared(batch);
        let room: usize = SITE_SIGNALS - self.signals.len();
        if fresh > room {
            return Err(SiteError::Store(SignalError::Full));
        }
        // The descriptors take the batch whole or not at all; what the store
        // could refuse was checked above, so nothing after this fails.
        let changed = match self.topology.apply(reason, batch) {
            Ok(changed) => changed,
            Err(why) => return Err(SiteError::Topology(why)),
        };
        let ghost before = old(self)@;
        let ghost rev = (before.tables.rev + 1) as u32;
        let ghost taken = take_all(before.tables, batch@, rev)->Taken_0;
        self.register_all(batch, Ghost(before), Ghost(rev))?;
        self.devices_all(batch);
        self.topology_owed = Some(merge(self.topology_owed, changed));
        proof {
            assert forall|sig: Id|
                #![trigger registered(self@.slots, sig)]
                registered(self@.slots, sig) <==> find_signal(self@.tables.signals, sig)
                    is Some by {
                lemma_batch_adds(before.tables, batch@, rev, sig);
                assert(registered(before.slots, sig) <==> find_signal(before.tables.signals, sig)
                    is Some);
            }
            let any: Id = arbitrary();
            lemma_batch_adds(before.tables, batch@, rev, any);
            assert forall|i: int| 0 <= i < before.announced.len() implies find_signal(
                before.tables.signals,
                (#[trigger] before.announced[i]).sig,
            ) is Some by {
                assert(registered(before.slots, before.announced[i].sig));
            }
            lemma_told_once_grows(before.tables, batch@, rev, before.announced);
            lemma_seen_once_grows(before.tables, batch@, rev, before.presence);
            let fresh_signals = signals_of(batch@);
            assert forall|i: int| 0 <= i < self@.announced.len() implies registered(
                self@.slots,
                (#[trigger] self@.announced[i]).sig,
            ) by {
                if i < before.announced.len() {
                    assert(self@.announced[i] == before.announced[i]);
                    assert(registered(before.slots, before.announced[i].sig));
                } else {
                    let f = i - before.announced.len();
                    assert(self@.announced[i].sig == fresh_signals[f].sig);
                    assert(declares(fresh_signals, fresh_signals[f].sig));
                }
            }
        }
        Ok(())
    }

    /// Register every signal of a batch the descriptors took.
    fn register_all(
        &mut self,
        batch: &[Descriptor],
        Ghost(before): Ghost<SiteView>,
        Ghost(rev): Ghost<u32>,
    ) -> (r: Result<(), SiteError>)
        requires
            old(self).signals.wf(),
            before.wf(),
            old(self)@.slots == before.slots,
            take_all(before.tables, batch@, rev) is Taken,
            before.slots.len() + signals_of(batch@).len() <= SITE_SIGNALS,
        ensures
            r is Ok,
            final(self).signals.wf(),
            store_grew(before.slots, final(self)@.slots, signals_of(batch@)),
            final(self)@.announced == old(self)@.announced + signals_of(batch@).map_values(
                |signal: SiteSignal| Announced { sig: signal.sig, q: initial() },
            ),
            final(self).topology == old(self).topology,
            final(self).presence == old(self).presence,
            final(self).topology_owed == old(self).topology_owed,
            final(self).cursor == old(self).cursor,
    {
        let ghost told = |signal: SiteSignal| Announced { sig: signal.sig, q: initial() };
        let mut i: usize = 0;
        proof {
            assert(batch@.take(0) =~= Seq::<Descriptor>::empty());
            let none = signals_of(batch@.take(0));
            assert(none =~= Seq::<SiteSignal>::empty());
            assert forall|n: int| 0 <= n < before.slots.len() implies self@.slots.contains(
                #[trigger] before.slots[n],
            ) by {
                assert(self@.slots[n] == before.slots[n]);
            }
            assert(store_grew(before.slots, self@.slots, none));
            assert(old(self)@.announced + none.map_values(told) =~= old(self)@.announced);
        }
        while i < batch.len()
            invariant
                self.signals.wf(),
                before.wf(),
                i <= batch@.len(),
                take_all(before.tables, batch@, rev) is Taken,
                before.slots.len() + signals_of(batch@).len() <= SITE_SIGNALS,
                store_grew(before.slots, self@.slots, signals_of(batch@.take(i as int))),
                told == (|signal: SiteSignal| Announced { sig: signal.sig, q: initial() }),
                self@.announced == old(self)@.announced + signals_of(
                    batch@.take(i as int),
                ).map_values(told),
                self.topology == old(self).topology,
                self.presence == old(self).presence,
                self.topology_owed == old(self).topology_owed,
                self.cursor == old(self).cursor,
            decreases batch@.len() - i,
        {
            let ghost had = signals_of(batch@.take(i as int));
            proof {
                let next = batch@.take(i + 1);
                assert(next.drop_last() =~= batch@.take(i as int));
                assert(next.last() == batch@[i as int]);
                lemma_signals_grow(batch@, i + 1);
            }
            if let Descriptor::Signal(signal) = batch[i] {
                let ghost slots = self@.slots;
                let ghost announced = self@.announced;
                proof {
                    lemma_batch_fresh(before.tables, batch@, rev, i as int);
                    assert(!registered(before.slots, signal.sig));
                    assert(!registered(slots, signal.sig));
                }
                match self.signals.register(signal.sig, signal.limits) {
                    Ok(()) => {},
                    Err(why) => return Err(SiteError::Store(why)),
                }
                let q = match SignalQuality::absent(Validity::Initialising) {
                    Ok(q) => q,
                    Err(why) => return Err(SiteError::Store(SignalError::Quality(why))),
                };
                self.announced.push(Announced { sig: signal.sig, q });
                proof {
                    let slot = Slot { sig: signal.sig, limits: signal.limits, held: None };
                    let at = choose|at: int|
                        0 <= at <= slots.len() && self@.slots == #[trigger] slots.insert(at, slot);
                    lemma_store_grows(before.slots, slots, had, signal, at);
                    assert(self@.announced =~= old(self)@.announced + had.push(signal).map_values(
                        told,
                    ));
                }
            }
            i = i + 1;
        }
        proof {
            assert(batch@.take(i as int) =~= batch@);
        }
        Ok(())
    }

    /// Hold every device of a batch the descriptors took, never seen.
    fn devices_all(&mut self, batch: &[Descriptor])
        ensures
            final(self)@.presence == old(self)@.presence + devices_of(batch@).map_values(
                |device: SiteDevice| never_seen(device.dev),
            ),
            final(self).signals == old(self).signals,
            final(self).announced == old(self).announced,
            final(self).topology == old(self).topology,
            final(self).topology_owed == old(self).topology_owed,
            final(self).cursor == old(self).cursor,
    {
        let ghost unseen = |device: SiteDevice| never_seen(device.dev);
        let mut i: usize = 0;
        proof {
            assert(batch@.take(0) =~= Seq::<Descriptor>::empty());
            assert(devices_of(batch@.take(0)) =~= Seq::<SiteDevice>::empty());
            assert(old(self)@.presence + devices_of(batch@.take(0)).map_values(unseen) =~= old(
                self,
            )@.presence);
        }
        while i < batch.len()
            invariant
                i <= batch@.len(),
                unseen == (|device: SiteDevice| never_seen(device.dev)),
                self@.presence == old(self)@.presence + devices_of(
                    batch@.take(i as int),
                ).map_values(unseen),
                self.signals == old(self).signals,
                self.announced == old(self).announced,
                self.topology == old(self).topology,
                self.topology_owed == old(self).topology_owed,
                self.cursor == old(self).cursor,
            decreases batch@.len() - i,
        {
            let ghost had = devices_of(batch@.take(i as int));
            proof {
                assert(batch@.take(i + 1).drop_last() =~= batch@.take(i as int));
                assert(batch@.take(i + 1).last() == batch@[i as int]);
            }
            if let Descriptor::Device(device) = batch[i] {
                self.presence.push(
                    Seen {
                        dev: device.dev,
                        held: Presence::NeverSeen,
                        before: Presence::NeverSeen,
                        announced: Presence::NeverSeen,
                    },
                );
                proof {
                    assert(self@.presence =~= old(self)@.presence + had.push(device).map_values(
                        unseen,
                    ));
                }
            }
            i = i + 1;
        }
        proof {
            assert(batch@.take(i as int) =~= batch@);
        }
    }

    /// One sweep of the signals whose quality differs from what was last
    /// announced, from where the last sweep stopped; each taken is marked
    /// announced.
    fn validity_sweep(&mut self, now: Tick, body: &mut [u8]) -> (r: Result<
        Option<usize>,
        OwedError,
    >)
        requires
            old(self).wf(),
            old(body)@.len() == RECORD_BODY,
        ensures
            final(self).wf(),
            final(body)@.len() == RECORD_BODY,
            ({
                let went = swept(old(self)@, now);
                &&& final(self)@ == (SiteView {
                    announced: went.announced,
                    cursor: went.cursor,
                    ..old(self)@
                })
                &&& match went.failed {
                    Some(why) => r == Err::<Option<usize>, OwedError>(OwedError::Store(why)),
                    None => if went.entries.len() == 0 {
                        &&& r == Ok::<Option<usize>, OwedError>(None)
                        &&& final(body)@ == old(body)@
                    } else {
                        let bytes = validity_image(old(self)@.tables.rev, went.entries);
                        &&& r == Ok::<Option<usize>, OwedError>(Some(bytes.len() as usize))
                        &&& bytes.len() <= RECORD_BODY
                        &&& final(body)@ == spliced(old(body)@, 0, bytes)
                        &&& sweep_of(bytes) == Some(all_read(went.entries))
                    },
                }
            }),
    {
        let mut sweep = new_sweep(self.topology.rev());
        let ghost whole = swept(old(self)@, now);
        let start: usize = self.cursor;
        let mut taken: usize = 0;
        let mut step: usize = 0;
        while step < SITE_SIGNALS && taken < SWEEP_ENTRIES
            invariant
                self.wf(),
                old(self).wf(),
                body@ == old(body)@,
                body@.len() == RECORD_BODY,
                step <= SITE_SIGNALS,
                taken <= SWEEP_ENTRIES,
                taken == sweep_entries(sweep).len(),
                start == old(self).cursor,
                start < SITE_SIGNALS,
                sweep_rev(sweep) == old(self)@.tables.rev,
                self.signals == old(self).signals,
                self.topology == old(self).topology,
                self.presence == old(self).presence,
                self.topology_owed == old(self).topology_owed,
                self@.announced.len() == old(self)@.announced.len(),
                whole == swept(old(self)@, now),
                whole == sweep_from(
                    old(self)@.slots,
                    now,
                    start as int,
                    step as int,
                    Swept {
                        announced: self@.announced,
                        cursor: self@.cursor,
                        entries: sweep_entries(sweep),
                        failed: None,
                    },
                ),
            decreases SITE_SIGNALS - step,
        {
            let at: usize = (start + step) % SITE_SIGNALS;
            if at < self.announced.len() {
                let told = self.announced[at];
                let sample = match self.signals.sample(told.sig, now) {
                    Ok(sample) => sample,
                    Err(why) => {
                        proof {
                            assert(self@ =~= SiteView {
                                announced: whole.announced,
                                cursor: whole.cursor,
                                ..old(self)@
                            });
                        }
                        return Err(OwedError::Store(why));
                    },
                };
                if sample.q != told.q {
                    proof {
                        SignalQuality::law_bytes_tell_qualities_apart(sample.q, told.q);
                        use_type_invariant(&sample.q);
                        SignalQuality::agreeing(sample.q);
                    }
                    let ghost entries = sweep_entries(sweep);
                    match push_change(&mut sweep, told.sig, sample.q, told.q) {
                        Ok(fitted) => {
                            proof {
                                assert(fitted);
                            }
                        },
                        Err(why) => return Err(OwedError::Change(why)),
                    }
                    let ghost announced = self@.announced;
                    self.announced[at] = Announced { sig: told.sig, q: sample.q };
                    self.cursor = (at + 1) % SITE_SIGNALS;
                    taken = taken + 1;
                    proof {
                        assert(self@.announced =~= announced.update(
                            at as int,
                            Announced { sig: told.sig, q: sample.q },
                        ));
                        assert forall|i: int| 0 <= i < self@.announced.len() implies registered(
                            self@.slots,
                            (#[trigger] self@.announced[i]).sig,
                        ) by {
                            assert(registered(old(self)@.slots, announced[i].sig));
                        }
                    }
                }
            }
            step = step + 1;
        }
        proof {
            assert(self@ =~= SiteView {
                announced: whole.announced,
                cursor: whole.cursor,
                ..old(self)@
            });
        }
        if taken == 0 {
            return Ok(None);
        }
        match write_sweep(&sweep, body) {
            Ok(len) => Ok(Some(len)),
            Err(why) => Err(OwedError::Change(why)),
        }
    }

    /// One sweep of every device whose presence differs from what was last
    /// announced, each marked announced.
    fn presence_sweep(&mut self, body: &mut [u8]) -> (r: Result<
        Option<(usize, Vec<Prev>)>,
        OwedError,
    >)
        requires
            old(self).wf(),
            old(body)@.len() == RECORD_BODY,
        ensures
            final(self).wf(),
            final(body)@.len() == RECORD_BODY,
            ({
                let went = presented(old(self)@);
                &&& final(self)@ == (SiteView { presence: went.presence, ..old(self)@ })
                &&& if went.stuck {
                    r matches Err(OwedError::Change(_))
                } else if went.entries.len() == 0 {
                    &&& r matches Ok(None)
                    &&& final(body)@ == old(body)@
                } else {
                    let bytes = presence_image(old(self)@.tables.rev, went.entries);
                    &&& r matches Ok(Some(sweep)) && sweep.0 == bytes.len() && sweep.1@
                        == went.prevs
                    &&& bytes.len() <= RECORD_BODY
                    &&& final(body)@ == spliced(old(body)@, 0, bytes)
                }
            }),
    {
        let mut sweep = new_presences(self.topology.rev());
        let ghost whole = presented(old(self)@);
        let mut prevs: Vec<Prev> = Vec::new();
        let mut at: usize = 0;
        while at < self.presence.len()
            invariant
                self.wf(),
                old(self).wf(),
                body@ == old(body)@,
                body@.len() == RECORD_BODY,
                at <= self@.presence.len(),
                prevs@.len() == presence_entries(sweep).len(),
                prevs@.len() <= at,
                presence_rev(sweep) == old(self)@.tables.rev,
                self.signals == old(self).signals,
                self.topology == old(self).topology,
                self.announced == old(self).announced,
                self.topology_owed == old(self).topology_owed,
                self.cursor == old(self).cursor,
                self@.presence.len() == old(self)@.presence.len(),
                whole == presented(old(self)@),
                whole == present_from(
                    at as int,
                    Presented {
                        presence: self@.presence,
                        entries: presence_entries(sweep),
                        prevs: prevs@,
                        stuck: false,
                    },
                ),
            decreases self@.presence.len() - at,
        {
            let seen = self.presence[at];
            if seen.held != seen.announced {
                if let Ok(dev) = Id::new(seen.dev) {
                    let ghost presence = self@.presence;
                    match push_presence(&mut sweep, dev, seen.held, seen.before) {
                        Ok(fitted) => {
                            proof {
                                assert(fitted);
                            }
                        },
                        Err(why) => {
                            proof {
                                assert(self@ =~= SiteView {
                                    presence: whole.presence,
                                    ..old(self)@
                                });
                            }
                            return Err(OwedError::Change(why));
                        },
                    }
                    prevs.push(Prev { dev: seen.dev, announced: seen.announced });
                    self.presence[at] = Seen {
                        dev: seen.dev,
                        held: seen.held,
                        before: seen.before,
                        announced: seen.held,
                    };
                    proof {
                        assert(self@.presence =~= presence.update(
                            at as int,
                            Seen { announced: seen.held, ..seen },
                        ));
                    }
                }
            }
            at = at + 1;
        }
        proof {
            assert(self@ =~= SiteView { presence: whole.presence, ..old(self)@ });
        }
        if prevs.len() == 0 {
            return Ok(None);
        }
        match write_presences(&sweep, body) {
            Ok(len) => Ok(Some((len, prevs))),
            Err(why) => Err(OwedError::Change(why)),
        }
    }

    /// What this tick does next: the next record it owes, written into
    /// `body`; or the concern table's turn; or nothing more. `seq` is the
    /// position the log will give the record, which a raise carries in its row.
    pub fn next_owed(
        &mut self,
        now: Tick,
        seq: u64,
        tally: &mut Tally,
        body: &mut [u8; RECORD_BODY],
    ) -> (r: Result<Due, OwedError>)
        requires
            old(self).wf(),
        ensures
            final(self).wf(),
            ({
                let came = owed_next(old(self)@, now, *old(tally));
                &&& final(self)@ == came.view
                &&& *final(tally) == came.tally
                &&& match came.what {
                    OwedWhat::Topology(changed) => {
                        let bytes = topology_image(
                            changed.rev,
                            changed.reason.spec_number(),
                            changed.added,
                            changed.removed,
                        );
                        &&& r matches Ok(Due::Record(owed)) && owed.kind == EventKind(
                            TOPOLOGY_CHANGED,
                        ) && owed.len == bytes.len() && owed.token == Token::Topology(changed)
                        &&& bytes.len() <= RECORD_BODY
                        &&& final(body)@ == spliced(old(body)@, 0, bytes)
                    },
                    OwedWhat::Validity(entries) => {
                        let bytes = validity_image(old(self)@.tables.rev, entries);
                        &&& r matches Ok(Due::Record(owed)) && owed.kind == EventKind(
                            SIGNAL_VALIDITY_CHANGED,
                        ) && owed.len == bytes.len() && owed.token == Token::Validity
                        &&& bytes.len() <= RECORD_BODY
                        &&& final(body)@ == spliced(old(body)@, 0, bytes)
                        &&& sweep_of(bytes) == Some(all_read(entries))
                    },
                    OwedWhat::Presence(entries, prevs) => {
                        let bytes = presence_image(old(self)@.tables.rev, entries);
                        &&& r matches Ok(Due::Record(owed)) && owed.kind == EventKind(
                            DEVICE_PRESENCE_CHANGED,
                        ) && owed.len == bytes.len() && (owed.token matches Token::Presence(held)
                            && held@ == prevs)
                        &&& bytes.len() <= RECORD_BODY
                        &&& final(body)@ == spliced(old(body)@, 0, bytes)
                    },
                    OwedWhat::Concern => {
                        &&& r == Ok::<Due, OwedError>(
                            Due::Concern(ConcernAsk { rev: old(self)@.tables.rev, now, seq }),
                        )
                        &&& final(body)@ == old(body)@
                    },
                    OwedWhat::Nothing => {
                        &&& r == Ok::<Due, OwedError>(Due::Nothing)
                        &&& final(body)@ == old(body)@
                    },
                    OwedWhat::Store(why) => r == Err::<Due, OwedError>(OwedError::Store(why)),
                    OwedWhat::Stuck => r matches Err(OwedError::Change(_)),
                }
            }),
    {
        if !tally.topology {
            if let Some(changed) = self.topology_owed {
                self.topology_owed = None;
                tally.topology = true;
                proof {
                    assert(self@ =~= SiteView { owed: None, ..old(self)@ });
                    assert forall|sig: Id|
                        #![trigger registered(self@.slots, sig)]
                        registered(self@.slots, sig) <==> find_signal(self@.tables.signals, sig)
                            is Some by {
                        assert(registered(old(self)@.slots, sig) == registered(self@.slots, sig));
                    }
                }
                return match write_topology(&changed, body) {
                    Ok(len) => Ok(
                        Due::Record(
                            Owed {
                                kind: EventKind(TOPOLOGY_CHANGED),
                                len,
                                token: Token::Topology(changed),
                            },
                        ),
                    ),
                    Err(why) => Err(OwedError::Change(why)),
                };
            }
        }
        if !tally.validity {
            tally.validity = true;
            if let Some(len) = self.validity_sweep(now, body)? {
                return Ok(
                    Due::Record(
                        Owed {
                            kind: EventKind(SIGNAL_VALIDITY_CHANGED),
                            len,
                            token: Token::Validity,
                        },
                    ),
                );
            }
        }
        if !tally.presence {
            tally.presence = true;
            if let Some((len, prevs)) = self.presence_sweep(body)? {
                return Ok(
                    Due::Record(
                        Owed {
                            kind: EventKind(DEVICE_PRESENCE_CHANGED),
                            len,
                            token: Token::Presence(prevs),
                        },
                    ),
                );
            }
        }
        if tally.concerns < MAX_CONCERN_EVENTS_PER_TICK {
            return Ok(Due::Concern(ConcernAsk { rev: self.topology.rev(), now, seq }));
        }
        Ok(Due::Nothing)
    }

    /// What the tick does with what the concern table handed out when it was
    /// asked: a record, its body written into `body` and counted against the
    /// tick, or nothing more. A raise goes out carrying the position the log
    /// will give it, whatever its row said.
    pub fn concern_handed(
        ask: ConcernAsk,
        handed: Result<Option<ConcernRecord>, km43::ConcernsError>,
        tally: &mut Tally,
        body: &mut [u8; RECORD_BODY],
    ) -> (r: Result<Due, OwedError>)
        ensures
            match handed {
                Err(why) => {
                    &&& r == Err::<Due, OwedError>(OwedError::Concern(why))
                    &&& *final(tally) == *old(tally)
                    &&& final(body)@ == old(body)@
                },
                Ok(None) => {
                    &&& r == Ok::<Due, OwedError>(Due::Nothing)
                    &&& *final(tally) == *old(tally)
                    &&& final(body)@ == old(body)@
                },
                Ok(Some(record)) => {
                    let bytes = record.spec_at(ask.seq).image();
                    &&& r == Ok::<Due, OwedError>(
                        Due::Record(
                            Owed {
                                kind: EventKind(
                                    if record is Raised {
                                        CONCERN_RAISED
                                    } else {
                                        CONCERN_CHANGED
                                    },
                                ),
                                len: bytes.len() as usize,
                                token: Token::Concern(record.spec_at(ask.seq)),
                            },
                        ),
                    )
                    &&& bytes.len() <= RECORD_BODY
                    &&& final(body)@ == spliced(old(body)@, 0, bytes)
                    &&& *final(tally) == (Tally {
                        concerns: if old(tally).concerns < usize::MAX {
                            (old(tally).concerns + 1) as usize
                        } else {
                            usize::MAX
                        },
                        ..*old(tally)
                    })
                },
            },
    {
        let record = match handed {
            Ok(Some(record)) => record.at(ask.seq),
            Ok(None) => return Ok(Due::Nothing),
            Err(why) => return Err(OwedError::Concern(why)),
        };
        tally.concerns = tally.concerns.saturating_add(1);
        let kind = match record {
            ConcernRecord::Raised(_) => EventKind(CONCERN_RAISED),
            ConcernRecord::Changed(_) => EventKind(CONCERN_CHANGED),
        };
        match write_record(&record, body) {
            Ok(len) => Ok(Due::Record(Owed { kind, len, token: Token::Concern(record) })),
            Err(why) => Err(OwedError::Concern(why)),
        }
    }

    /// The record `token` announced landed at `seq`: the record the concern
    /// table is told of and where it is, or nothing for a record that is not a
    /// concern's.
    pub fn committed(token: &Token, seq: u64) -> (r: Option<(ConcernRecord, u64)>)
        ensures
            r == match *token {
                Token::Concern(record) => Some((record, seq)),
                _ => None,
            },
    {
        match token {
            Token::Concern(record) => Some((*record, seq)),
            Token::Validity | Token::Presence(_) | Token::Topology(_) => None,
        }
    }

    /// The record `token` announced, whose body is `body`, did not land: what
    /// it announced is owed again. A concern's record is handed back, for its
    /// table to owe again.
    pub fn not_committed(&mut self, token: &Token, body: &[u8]) -> (r: Option<ConcernRecord>)
        requires
            old(self).wf(),
        ensures
            final(self).wf(),
            final(self)@ == given_back(old(self)@, *token, sweep_of(body@)),
            r == match *token {
                Token::Concern(record) => Some(record),
                _ => None,
            },
    {
        let read = match token {
            Token::Validity => read_sweep(body),
            _ => None,
        };
        self.give_back(token, read);
        match token {
            Token::Concern(record) => Some(*record),
            Token::Validity | Token::Presence(_) | Token::Topology(_) => None,
        }
    }

    /// Give back what `token` announced, `read` being the entries of its body
    /// when it is a sweep of validities.
    pub fn give_back(&mut self, token: &Token, read: Option<Vec<Option<(u16, u8, u8)>>>)
        requires
            old(self).wf(),
        ensures
            final(self).wf(),
            final(self)@ == given_back(
                old(self)@,
                *token,
                match read {
                    Some(entries) => Some(entries@),
                    None => None,
                },
            ),
    {
        match token {
            Token::Validity => {
                if let Some(entries) = read {
                    self.take_back(&entries);
                }
            },
            Token::Presence(prevs) => {
                self.put_back(prevs);
            },
            Token::Topology(changed) => {
                self.topology_owed = Some(
                    match self.topology_owed {
                        Some(owed) => merge(Some(*changed), owed),
                        None => *changed,
                    },
                );
                proof {
                    assert(self@ =~= given_back(old(self)@, *token, None));
                    assert forall|sig: Id|
                        #![trigger registered(self@.slots, sig)]
                        registered(self@.slots, sig) <==> find_signal(self@.tables.signals, sig)
                            is Some by {
                        assert(registered(old(self)@.slots, sig) == registered(self@.slots, sig));
                    }
                }
            },
            Token::Concern(_) => {},
        }
    }

    /// Put every entry's signal back at the quality announced before.
    fn take_back(&mut self, entries: &Vec<Option<(u16, u8, u8)>>)
        requires
            old(self).wf(),
        ensures
            final(self).wf(),
            final(self)@ == (SiteView {
                announced: taken_back(old(self)@.announced, entries@),
                ..old(self)@
            }),
    {
        let mut i: usize = 0;
        proof {
            assert(entries@.take(0) =~= Seq::<Option<(u16, u8, u8)>>::empty());
            assert(self@ =~= SiteView {
                announced: taken_back(old(self)@.announced, entries@.take(0)),
                ..old(self)@
            });
        }
        while i < entries.len()
            invariant
                self.wf(),
                i <= entries@.len(),
                self@ == (SiteView {
                    announced: taken_back(old(self)@.announced, entries@.take(i as int)),
                    ..old(self)@
                }),
            decreases entries@.len() - i,
        {
            let ghost before = *self;
            proof {
                assert(entries@.take(i + 1).drop_last() =~= entries@.take(i as int));
                assert(entries@.take(i + 1).last() == entries@[i as int]);
            }
            if let Some((sig, _, prev)) = entries[i] {
                if let Some(at) = self.announced_at(sig) {
                    if let Some(q) = SignalQuality::from_byte(prev) {
                        let told = self.announced[at];
                        self.announced[at] = Announced { sig: told.sig, q };
                    }
                }
            }
            i = i + 1;
            proof {
                assert(self@ =~= SiteView {
                    announced: taken_back(old(self)@.announced, entries@.take(i as int)),
                    ..old(self)@
                });
                assert(self@.slots == before@.slots);
                assert forall|n: int| 0 <= n < self@.announced.len() implies registered(
                    self@.slots,
                    (#[trigger] self@.announced[n]).sig,
                ) by {
                    assert(registered(before@.slots, before@.announced[n].sig));
                }
                assert forall|sig: Id|
                    #![trigger registered(self@.slots, sig)]
                    registered(self@.slots, sig) <==> find_signal(self@.tables.signals, sig)
                        is Some by {
                    assert(registered(before@.slots, sig) == registered(self@.slots, sig));
                }
            }
        }
        proof {
            assert(entries@.take(i as int) =~= entries@);
        }
    }

    /// Put every device back at the presence announced before.
    fn put_back(&mut self, prevs: &Vec<Prev>)
        requires
            old(self).wf(),
        ensures
            final(self).wf(),
            final(self)@ == (SiteView {
                presence: put_back(old(self)@.presence, prevs@),
                ..old(self)@
            }),
    {
        let mut i: usize = 0;
        proof {
            assert(prevs@.take(0) =~= Seq::<Prev>::empty());
            assert(self@ =~= SiteView {
                presence: put_back(old(self)@.presence, prevs@.take(0)),
                ..old(self)@
            });
        }
        while i < prevs.len()
            invariant
                self.wf(),
                i <= prevs@.len(),
                self@ == (SiteView {
                    presence: put_back(old(self)@.presence, prevs@.take(i as int)),
                    ..old(self)@
                }),
            decreases prevs@.len() - i,
        {
            let ghost before = *self;
            proof {
                assert(prevs@.take(i + 1).drop_last() =~= prevs@.take(i as int));
                assert(prevs@.take(i + 1).last() == prevs@[i as int]);
            }
            let prev = prevs[i];
            if let Some(at) = self.find_device(prev.dev) {
                let seen = self.presence[at];
                self.presence[at] = Seen {
                    dev: seen.dev,
                    held: seen.held,
                    before: seen.before,
                    announced: prev.announced,
                };
            }
            i = i + 1;
            proof {
                assert(self@ =~= SiteView {
                    presence: put_back(old(self)@.presence, prevs@.take(i as int)),
                    ..old(self)@
                });
                assert forall|sig: Id|
                    #![trigger registered(self@.slots, sig)]
                    registered(self@.slots, sig) <==> find_signal(self@.tables.signals, sig)
                        is Some by {
                    assert(registered(before@.slots, sig) == registered(self@.slots, sig));
                }
                assert forall|n: int| 0 <= n < self@.announced.len() implies registered(
                    self@.slots,
                    (#[trigger] self@.announced[n]).sig,
                ) by {
                    assert(registered(before@.slots, before@.announced[n].sig));
                }
            }
        }
        proof {
            assert(prevs@.take(i as int) =~= prevs@);
        }
    }

    /// The body that answers `request` for rows.
    pub fn inventory(&self, request: &crate::site_rows::ReadInventory, dst: &mut [u8]) -> (r:
        Result<usize, km43::InventoryError>)
        requires
            self.wf(),
        ensures
            final(dst)@.len() == old(dst)@.len(),
            match crate::topology::answer_of(self@.tables, *request) {
                Some(bytes) if bytes.len() <= old(dst)@.len() => {
                    &&& r matches Ok(len) && len == bytes.len()
                    &&& final(dst)@ == spliced(old(dst)@, 0, bytes)
                },
                _ => r is Err,
            },
    {
        self.topology.answer(request, dst)
    }

    /// Whether a request selects a signal.
    fn asks_for(&self, request: &ReadSignals, signal: &SiteSignal) -> (r: bool)
        ensures
            r == asked_for(self@.tables, request.sel@, *signal),
    {
        if request.sel.len() == 0 {
            return true;
        }
        let mut i: usize = 0;
        while i < request.sel.len()
            invariant
                i <= request.sel@.len(),
                request.sel@.len() > 0,
                forall|j: int|
                    0 <= j < i ==> !selected_by(
                        self@.tables,
                        #[trigger] request.sel@[j],
                        *signal,
                    ),
            decreases request.sel@.len() - i,
        {
            if self.topology.selects(request.sel[i], signal) {
                proof {
                    assert(selected_by(self@.tables, request.sel@[i as int], *signal));
                }
                return true;
            }
            i = i + 1;
        }
        false
    }

    /// Whether every selector of a request names something.
    fn knows_all(&self, request: &ReadSignals) -> (r: bool)
        ensures
            r == !(exists|i: int|
                0 <= i < request.sel@.len() && !known(
                    self@.tables,
                    #[trigger] request.sel@[i],
                )),
    {
        let mut i: usize = 0;
        while i < request.sel.len()
            invariant
                i <= request.sel@.len(),
                forall|j: int|
                    0 <= j < i ==> known(self@.tables, #[trigger] request.sel@[j]),
            decreases request.sel@.len() - i,
        {
            if !self.topology.knows(request.sel[i]) {
                proof {
                    assert(!known(self@.tables, request.sel@[i as int]));
                }
                return false;
            }
            i = i + 1;
        }
        true
    }

    /// The signals a request selects, in signal order.
    fn select(&self, request: &ReadSignals) -> (r: Vec<SiteSignal>)
        requires
            self.wf(),
        ensures
            r@ == selection(self@.tables, request.sel@),
            r@.len() <= SITE_SIGNALS,
    {
        let signals = self.topology.signals();
        let mut picked: Vec<SiteSignal> = Vec::new();
        let mut n: usize = 0;
        while n < signals.len()
            invariant
                self.wf(),
                signals@ == self@.tables.signals,
                n <= signals@.len() <= SITE_SIGNALS,
                picked@.len() <= n,
                picked@ == chosen(self@.tables, request.sel@, n as int),
            decreases signals@.len() - n,
        {
            if self.asks_for(request, &signals[n]) {
                picked.push(signals[n]);
            }
            n = n + 1;
        }
        picked
    }

    /// The answer to `request` at `now`, reflecting the log up to `seq`:
    /// superseded, then a selector naming nothing, then a cursor past the
    /// selection; else the union of the selectors in signal order, every
    /// signal when there are none.
    pub fn readings(&self, request: &ReadSignals, seq: u64, now: Tick, dst: &mut [u8]) -> (r:
        Result<usize, ReadingsFailed>)
        requires
            self.wf(),
        ensures
            final(dst)@.len() == old(dst)@.len(),
            ({
                let tables = self@.tables;
                let picked = selection(tables, request.sel@);
                let outcome = readings_outcome(tables, *request);
                let page = gathered(
                    self@.slots,
                    picked,
                    now,
                    request.from,
                    Paged { rows: Seq::empty(), next: 0 },
                );
                if outcome is Answered && page is Err {
                    &&& r == Err::<usize, ReadingsFailed>(ReadingsFailed::Store(page->Err_0))
                    &&& final(dst)@ == old(dst)@
                } else {
                    match readings_image(
                        seq,
                        tables.rev,
                        outcome.spec_number(),
                        picked.len() as u16,
                        if outcome is Answered {
                            Some((page->Ok_0.rows, page->Ok_0.next))
                        } else {
                            None
                        },
                    ) {
                        Some(bytes) if bytes.len() <= old(dst)@.len() => {
                            &&& r matches Ok(len) && len == bytes.len()
                            &&& final(dst)@ == spliced(old(dst)@, 0, bytes)
                        },
                        _ => r matches Err(ReadingsFailed::Encode(_)),
                    }
                }
            }),
    {
        let rev: u32 = self.topology.rev();
        let picked = self.select(request);
        let total: u16 = picked.len() as u16;
        let past = if picked.len() == 0 {
            true
        } else {
            request.from > picked[picked.len() - 1].sig.get()
        };
        let outcome = if request.rev != 0 && request.rev != rev {
            ReadingsOutcome::Superseded
        } else if !self.knows_all(request) {
            ReadingsOutcome::UnknownSelector
        } else if request.from != 0 && past {
            ReadingsOutcome::OutOfRange
        } else {
            ReadingsOutcome::Answered
        };
        let wrote = match outcome {
            ReadingsOutcome::Answered => {
                let page = self.gather(&picked, now, request.from)?;
                write_readings(dst, seq, rev, outcome, total, Some(&page))
            },
            _ => write_readings(dst, seq, rev, outcome, total, None),
        };
        match wrote {
            Ok(len) => Ok(len),
            Err(why) => Err(ReadingsFailed::Encode(why)),
        }
    }

    /// A page of the samples of `picked` from `from` on, until it is full.
    fn gather(&self, picked: &Vec<SiteSignal>, now: Tick, from: u16) -> (r: Result<
        km43::ReadingsPage,
        ReadingsFailed,
    >)
        requires
            self.wf(),
        ensures
            match gathered(
                self@.slots,
                picked@,
                now,
                from,
                Paged { rows: Seq::empty(), next: 0 },
            ) {
                Ok(page) => r matches Ok(built) && readings_rows(built) == page.rows
                    && readings_next(built) == page.next,
                Err(why) => r == Err::<km43::ReadingsPage, ReadingsFailed>(
                    ReadingsFailed::Store(why),
                ),
            },
    {
        let mut page = new_readings();
        let ghost whole = gathered(
            self@.slots,
            picked@,
            now,
            from,
            Paged { rows: Seq::empty(), next: 0 },
        );
        let mut i: usize = 0;
        proof {
            assert(picked@.skip(0) =~= picked@);
        }
        while i < picked.len()
            invariant
                self.wf(),
                i <= picked@.len(),
                whole == gathered(
                    self@.slots,
                    picked@,
                    now,
                    from,
                    Paged { rows: Seq::empty(), next: 0 },
                ),
                whole == gathered(
                    self@.slots,
                    picked@.skip(i as int),
                    now,
                    from,
                    Paged { rows: readings_rows(page), next: readings_next(page) },
                ),
            decreases picked@.len() - i,
        {
            proof {
                assert(picked@.skip(i as int)[0] == picked@[i as int]);
                assert(picked@.skip(i as int).skip(1) =~= picked@.skip(i + 1));
            }
            let sig = picked[i].sig;
            if sig.get() >= from {
                let sample = match self.signals.sample(sig, now) {
                    Ok(sample) => sample,
                    Err(why) => return Err(ReadingsFailed::Store(why)),
                };
                match push_sample(&mut page, &sample) {
                    Ok(taken) => if !taken {
                        return Ok(page);
                    },
                    Err(why) => return Err(ReadingsFailed::Encode(why)),
                }
            }
            i = i + 1;
        }
        Ok(page)
    }
}

} // verus!
