//! The wire's own encoders, as the tables use them: what each answers, named
//! where it takes pages to say.

use crate::bytes::spliced;
use crate::reading::{Id, Sample, SignalQuality};
use crate::site_rows::{
    Cell, InventoryOutcome, Presence, ReadingsOutcome, RowKind, TopologyChangeReason,
    TopologyChanged,
};
use vstd::prelude::*;

verus! {

/// The most rows one inventory page carries.
pub const PAGE_ROWS: usize = 48;

/// The most bytes the rows of one inventory page take.
pub const PAGE_BYTES: usize = 880;

/// The most bytes one row takes.
pub const ROW_BYTES: usize = 184;

/// The most values a row has.
pub const ROW_CELLS: usize = 18;

/// `km43::Page`, a page of inventory rows under construction.
#[verifier::external_type_specification]
#[verifier::external_body]
pub struct ExPage(km43::Page);

/// `km43::TopoDigest`, the digest of the rows under construction.
#[verifier::external_type_specification]
#[verifier::external_body]
pub struct ExTopoDigest(km43::TopoDigest);

/// `km43::InventoryError`, why a row or a page was refused.
#[verifier::external_type_specification]
#[verifier::external_body]
pub struct ExInventoryError(km43::InventoryError);

/// The bytes a row of kind `kind` with these values goes out as, or nothing
/// when it is refused.
pub uninterp spec fn row_image(kind: u8, cells: Seq<Cell>) -> Option<Seq<u8>>;

/// The rows a page holds, each as the bytes it encoded to.
pub uninterp spec fn page_rows(page: km43::Page) -> Seq<Seq<u8>>;

/// A page's kind, and the id it stopped at: zero while it took every row.
pub uninterp spec fn page_marks(page: km43::Page) -> (u8, u16);

/// The body of an inventory answer: its revision, kind, outcome, total, rows
/// and cursor, and digest.
pub uninterp spec fn inventory_image(
    rev: u32,
    what: u8,
    outcome: u8,
    total: u16,
    page: Option<(Seq<Seq<u8>>, u16)>,
    digest: Option<Seq<u8>>,
) -> Option<Seq<u8>>;

/// The bytes a digest has absorbed.
pub uninterp spec fn absorbed(digest: km43::TopoDigest) -> Seq<u8>;

/// The revision a digest is of, and the kind it absorbed last: zero before the
/// first.
pub uninterp spec fn digest_marks(digest: km43::TopoDigest) -> (u32, u8);

/// The digest of `rows` at revision `rev`.
pub uninterp spec fn topo_digest(rev: u32, rows: Seq<u8>) -> Seq<u8>;

/// Every byte of `rows`, in order.
pub open spec fn flat(rows: Seq<Seq<u8>>) -> Seq<u8>
    decreases rows.len(),
{
    if rows.len() == 0 {
        Seq::empty()
    } else {
        flat(rows.drop_last()) + rows.last()
    }
}

/// Check a row against its kind's table: `km43::Row::new`.
///
/// Trusted: it accepts or refuses by the kind and the values alone. A row of
/// at most [`ROW_CELLS`] such values that it accepts also encodes within
/// [`ROW_BYTES`], since no value takes more than ten bytes with its key;
/// [`row_image`] names what it encodes to, and is nothing for a row that is
/// refused. Which error is answered is left unsaid.
#[verifier::external_body]
pub(crate) fn check_row(kind: RowKind, cells: &[Cell]) -> (r: Result<(), km43::InventoryError>)
    requires
        cells@.len() <= ROW_CELLS,
    ensures
        match row_image(kind.spec_number(), cells@) {
            Some(bytes) => r is Ok && bytes.len() <= ROW_BYTES,
            None => r is Err,
        },
{
    let kind = match kind {
        RowKind::Bus => km43::RowKind::Bus,
        RowKind::Device => km43::RowKind::Device,
        RowKind::Component => km43::RowKind::Component,
        RowKind::Signal => km43::RowKind::Signal,
        RowKind::Param => km43::RowKind::Param,
    };
    let values: Vec<km43::Value<'_>> = cells.iter().map(|cell| match cell {
        Cell::U8(value) => km43::Value::U8(*value),
        Cell::U16(value) => km43::Value::U16(*value),
        Cell::U32(value) => km43::Value::U32(*value),
        Cell::Bytes(value) => km43::Value::Bytes(value.as_bytes()),
        Cell::Absent => km43::Value::Absent,
    }).collect();
    km43::Row::new(kind, &values).map(|_| ())
}

/// An empty page of one kind: `km43::Page::new`.
///
/// Trusted: the page holds no row, carries the kind's number and has stopped
/// nowhere.
#[verifier::external_body]
pub(crate) fn new_page(kind: RowKind) -> (r: km43::Page)
    ensures
        page_rows(r) == Seq::<Seq<u8>>::empty(),
        page_marks(r) == (kind.spec_number(), 0u16),
{
    km43::Page::new(match kind {
        RowKind::Bus => km43::RowKind::Bus,
        RowKind::Device => km43::RowKind::Device,
        RowKind::Component => km43::RowKind::Component,
        RowKind::Signal => km43::RowKind::Signal,
        RowKind::Param => km43::RowKind::Param,
    })
}

/// Try to add a row to a page: `km43::Row::new`, then `km43::Page::push`.
///
/// Trusted: a row its kind's table refuses, which is one [`row_image`] names
/// nothing for, is an error and changes nothing. Any other row is at most
/// [`ROW_BYTES`] long; it is taken when the page is under [`PAGE_ROWS`] rows
/// and stays within [`PAGE_BYTES`], and otherwise the page keeps its id as
/// where it stopped.
#[verifier::external_body]
pub(crate) fn push_row(page: &mut km43::Page, cells: &[Cell], id: u16) -> (r: Result<
    bool,
    km43::InventoryError,
>)
    requires
        cells@.len() <= ROW_CELLS,
    ensures
        page_marks(*final(page)).0 == page_marks(*old(page)).0,
        ({
            let rows = page_rows(*old(page));
            let kind = page_marks(*old(page)).0;
            match row_image(kind, cells@) {
                Some(bytes) => {
                    let room = rows.len() < PAGE_ROWS && flat(rows).len() + bytes.len()
                        <= PAGE_BYTES;
                    &&& bytes.len() <= ROW_BYTES
                    &&& r matches Ok(taken) && taken == room
                    &&& page_rows(*final(page)) == (if room {
                        rows.push(bytes)
                    } else {
                        rows
                    })
                    &&& page_marks(*final(page)).1 == (if room {
                        page_marks(*old(page)).1
                    } else {
                        id
                    })
                },
                None => {
                    &&& r is Err
                    &&& page_rows(*final(page)) == rows
                    &&& page_marks(*final(page)) == page_marks(*old(page))
                },
            }
        }),
{
    let values: Vec<km43::Value<'_>> = cells.iter().map(|cell| match cell {
        Cell::U8(value) => km43::Value::U8(*value),
        Cell::U16(value) => km43::Value::U16(*value),
        Cell::U32(value) => km43::Value::U32(*value),
        Cell::Bytes(value) => km43::Value::Bytes(value.as_bytes()),
        Cell::Absent => km43::Value::Absent,
    }).collect();
    let row = km43::Row::new(page.kind(), &values)?;
    page.push(&row, id)
}

/// The id a page stopped at: `km43::Page::next`.
///
/// Trusted: it answers the id a page kept when it refused a row, zero when it
/// refused none.
#[verifier::external_body]
pub(crate) fn page_stopped_at(page: &km43::Page) -> (r: u16)
    ensures
        r == page_marks(*page).1,
{
    page.next()
}

/// Write an inventory answer: `km43::InventoryBody::encode`.
///
/// Trusted: the bytes are a function of the values alone, named
/// [`inventory_image`]; they are written at the front of `dst` when they fit
/// it, and what does not encode or does not fit is an error.
#[verifier::external_body]
pub(crate) fn write_inventory(
    dst: &mut [u8],
    rev: u32,
    what: u8,
    outcome: InventoryOutcome,
    total: u16,
    page: Option<&km43::Page>,
    digest: Option<[u8; 8]>,
) -> (r: Result<usize, km43::InventoryError>)
    ensures
        final(dst)@.len() == old(dst)@.len(),
        match inventory_image(
            rev,
            what,
            outcome.spec_number(),
            total,
            match page {
                Some(page) => Some((page_rows(*page), page_marks(*page).1)),
                None => None,
            },
            match digest {
                Some(digest) => Some(digest@),
                None => None,
            },
        ) {
            Some(bytes) if bytes.len() <= old(dst)@.len() => {
                &&& r matches Ok(len) && len == bytes.len()
                &&& final(dst)@ == spliced(old(dst)@, 0, bytes)
            },
            _ => r is Err,
        },
{
    let outcome = match outcome {
        InventoryOutcome::Answered => km43::InventoryOutcome::Ok,
        InventoryOutcome::Superseded => km43::InventoryOutcome::Superseded,
        InventoryOutcome::UnknownKind => km43::InventoryOutcome::UnknownKind,
        InventoryOutcome::OutOfRange => km43::InventoryOutcome::OutOfRange,
    };
    km43::InventoryBody { rev, what, outcome, total, page, digest }.encode(dst)
}

/// Start a digest at a revision: `km43::TopoDigest::new`.
///
/// Trusted: it has absorbed nothing.
#[verifier::external_body]
pub(crate) fn new_digest(rev: u32) -> (r: km43::TopoDigest)
    ensures
        absorbed(r) == Seq::<u8>::empty(),
        digest_marks(r) == (rev, 0u8),
{
    km43::TopoDigest::new(rev)
}

/// Absorb one page's rows: `km43::TopoDigest::absorb`.
///
/// Trusted: the rows' bytes are appended in order; a kind before the last one
/// absorbed is an error and changes nothing.
#[verifier::external_body]
pub(crate) fn absorb_page(digest: &mut km43::TopoDigest, page: &km43::Page) -> (r: Result<
    (),
    km43::InventoryError,
>)
    ensures
        if page_marks(*page).0 < digest_marks(*old(digest)).1 {
            &&& r is Err
            &&& absorbed(*final(digest)) == absorbed(*old(digest))
            &&& digest_marks(*final(digest)) == digest_marks(*old(digest))
        } else {
            &&& r is Ok
            &&& absorbed(*final(digest)) == absorbed(*old(digest)) + flat(page_rows(*page))
            &&& digest_marks(*final(digest)) == (
                digest_marks(*old(digest)).0,
                page_marks(*page).0,
            )
        },
{
    digest.absorb(page)
}

/// Finish a digest: `km43::TopoDigest::finish`.
///
/// Trusted: the eight bytes are a function of the revision and the bytes
/// absorbed, named [`topo_digest`].
#[verifier::external_body]
pub(crate) fn finish_digest(digest: km43::TopoDigest) -> (r: [u8; 8])
    ensures
        r@ == topo_digest(digest_marks(digest).0, absorbed(digest)),
{
    digest.finish()
}

/// The most samples one page of readings carries.
pub const READINGS_ROWS: usize = 40;

/// The most bytes the samples of one page take.
pub const READINGS_BYTES: usize = 880;

/// The most bytes one sample takes.
pub const SAMPLE_BYTES: usize = 20;

/// The most entries one sweep of validities carries.
pub const SWEEP_CAP: usize = 48;

/// The most entries one sweep of presences carries.
pub const PRESENCE_CAP: usize = 24;

/// `km43::ReadingsPage`, a page of readings under construction.
#[verifier::external_type_specification]
#[verifier::external_body]
pub struct ExReadingsPage(km43::ReadingsPage);

/// `km43::ReadingsError`, why a page of readings was refused.
#[verifier::external_type_specification]
#[verifier::external_body]
pub struct ExReadingsError(km43::ReadingsError);

/// `km43::ValidityChanged`, a sweep of validities under construction.
#[verifier::external_type_specification]
#[verifier::external_body]
pub struct ExValidityChanged(km43::ValidityChanged);

/// `km43::PresenceChanged`, a sweep of presences under construction.
#[verifier::external_type_specification]
#[verifier::external_body]
pub struct ExPresenceChanged(km43::PresenceChanged);

/// `km43::ChangeError`, why a change record was refused.
#[verifier::external_type_specification]
#[verifier::external_body]
pub struct ExChangeError(km43::ChangeError);

/// The bytes a sample goes out as.
pub uninterp spec fn sample_image(
    sig: u16,
    q: u8,
    value: Option<i32>,
    age: Option<u32>,
) -> Seq<u8>;

/// The samples a page of readings holds, each as the bytes it encoded to.
pub uninterp spec fn readings_rows(page: km43::ReadingsPage) -> Seq<Seq<u8>>;

/// The signal a page of readings stopped at: zero while it took every one.
pub uninterp spec fn readings_next(page: km43::ReadingsPage) -> u16;

/// The body of a readings answer with no wall clock: its position, revision,
/// outcome, total, and samples and cursor.
pub uninterp spec fn readings_image(
    seq: u64,
    rev: u32,
    outcome: u8,
    total: u16,
    page: Option<(Seq<Seq<u8>>, u16)>,
) -> Option<Seq<u8>>;

/// The entries of a sweep of validities: signal, quality, and the quality
/// announced before.
pub uninterp spec fn sweep_entries(sweep: km43::ValidityChanged) -> Seq<(u16, u8, u8)>;

/// The revision of a sweep of validities.
pub uninterp spec fn sweep_rev(sweep: km43::ValidityChanged) -> u32;

/// The body of a sweep of validities.
pub uninterp spec fn validity_image(rev: u32, entries: Seq<(u16, u8, u8)>) -> Seq<u8>;

/// The entries a sweep's body holds, as `km43::ValidityChanged::decode` reads
/// them, each one or nothing where it does not read, or nothing when the body
/// is not a sweep.
pub uninterp spec fn sweep_of(body: Seq<u8>) -> Option<Seq<Option<(u16, u8, u8)>>>;

/// The entries of a sweep of presences: device, presence, and the one held
/// before.
pub uninterp spec fn presence_entries(sweep: km43::PresenceChanged) -> Seq<(u16, u8, u8)>;

/// The revision of a sweep of presences.
pub uninterp spec fn presence_rev(sweep: km43::PresenceChanged) -> u32;

/// The body of a sweep of presences.
pub uninterp spec fn presence_image(rev: u32, entries: Seq<(u16, u8, u8)>) -> Seq<u8>;

/// The body of a topology change.
pub uninterp spec fn topology_image(rev: u32, reason: u8, added: u16, removed: u16) -> Seq<u8>;

/// Whether a page of samples has room for one more.
pub open spec fn sample_fits(rows: Seq<Seq<u8>>, bytes: Seq<u8>) -> bool {
    rows.len() < READINGS_ROWS && flat(rows).len() + bytes.len() <= READINGS_BYTES
}

/// Entries, every one of which reads.
pub open spec fn all_read(entries: Seq<(u16, u8, u8)>) -> Seq<Option<(u16, u8, u8)>> {
    entries.map_values(|entry: (u16, u8, u8)| Some(entry))
}

/// Whether a sweep is under its cap.
pub open spec fn under(entries: Seq<(u16, u8, u8)>, cap: nat) -> bool {
    entries.len() < cap
}

/// Whether a sweep holds an entry.
pub open spec fn holds_some(entries: Seq<(u16, u8, u8)>) -> bool {
    entries.len() > 0
}

/// An empty page of readings: `km43::ReadingsPage::new`.
///
/// Trusted: it holds no sample and has stopped nowhere.
#[verifier::external_body]
pub(crate) fn new_readings() -> (r: km43::ReadingsPage)
    ensures
        readings_rows(r) == Seq::<Seq<u8>>::empty(),
        readings_next(r) == 0,
{
    km43::ReadingsPage::new()
}

/// Try to add a sample to a page: `km43::Sample::new`, then
/// `km43::ReadingsPage::push_sample`.
///
/// Trusted: a sample of a shape its quality does not contradict is at most
/// [`SAMPLE_BYTES`] long; it is taken when the page is under
/// [`READINGS_ROWS`] samples and stays within [`READINGS_BYTES`], and
/// otherwise the page keeps its signal as where it stopped.
#[verifier::external_body]
pub(crate) fn push_sample(page: &mut km43::ReadingsPage, sample: &Sample) -> (r: Result<
    bool,
    km43::ReadingsError,
>)
    requires
        Sample::spec_refused(sample.q, sample.value, sample.age) is None,
    ensures
        ({
            let rows = readings_rows(*old(page));
            let bytes = sample_image(
                sample.sig@,
                sample.q.spec_byte(),
                sample.value,
                sample.age,
            );
            let room = sample_fits(rows, bytes);
            &&& r == Ok::<bool, km43::ReadingsError>(room)
            &&& r is Ok ==> bytes.len() <= SAMPLE_BYTES
            &&& readings_rows(*final(page)) == (if room {
                rows.push(bytes)
            } else {
                rows
            })
            &&& readings_next(*final(page)) == (if room {
                readings_next(*old(page))
            } else {
                sample.sig@
            })
        }),
{
    let sig = km43::Id::new(sample.sig.get())?;
    let q = km43::SignalQuality::from_byte(sample.q.byte())?;
    page.push_sample(&km43::Sample::new(sig, q, sample.value, sample.age)?)
}

/// Write a readings answer with no wall clock: `km43::ReadingsBody::encode`.
///
/// Trusted: the bytes are a function of the values alone, named
/// [`readings_image`]; they are written at the front of `dst` when they fit
/// it, and what does not encode or does not fit is an error.
#[verifier::external_body]
pub(crate) fn write_readings(
    dst: &mut [u8],
    seq: u64,
    rev: u32,
    outcome: ReadingsOutcome,
    total: u16,
    page: Option<&km43::ReadingsPage>,
) -> (r: Result<usize, km43::ReadingsError>)
    ensures
        final(dst)@.len() == old(dst)@.len(),
        match readings_image(
            seq,
            rev,
            outcome.spec_number(),
            total,
            match page {
                Some(page) => Some((readings_rows(*page), readings_next(*page))),
                None => None,
            },
        ) {
            Some(bytes) if bytes.len() <= old(dst)@.len() => {
                &&& r matches Ok(len) && len == bytes.len()
                &&& final(dst)@ == spliced(old(dst)@, 0, bytes)
            },
            _ => r is Err,
        },
{
    let outcome = match outcome {
        ReadingsOutcome::Answered => km43::ReadingsOutcome::Ok,
        ReadingsOutcome::Superseded => km43::ReadingsOutcome::Superseded,
        ReadingsOutcome::UnknownSelector => km43::ReadingsOutcome::UnknownSelector,
        ReadingsOutcome::OutOfRange => km43::ReadingsOutcome::OutOfRange,
    };
    km43::ReadingsBody { seq, rev, at: None, outcome, total, page }.encode(dst)
}

/// An empty sweep of validities: `km43::ValidityChanged::new`.
///
/// Trusted: it holds no entry.
#[verifier::external_body]
pub(crate) fn new_sweep(rev: u32) -> (r: km43::ValidityChanged)
    ensures
        sweep_entries(r) == Seq::<(u16, u8, u8)>::empty(),
        sweep_rev(r) == rev,
{
    km43::ValidityChanged::new(rev)
}

/// Try to add an entry to a sweep: `km43::ValidityChanged::push`.
///
/// Trusted: an entry that moves is taken while the sweep is under
/// [`SWEEP_CAP`] entries, and otherwise the sweep is as it was.
#[verifier::external_body]
pub(crate) fn push_change(
    sweep: &mut km43::ValidityChanged,
    sig: Id,
    q: SignalQuality,
    prev: SignalQuality,
) -> (r: Result<bool, km43::ChangeError>)
    requires
        q.spec_byte() != prev.spec_byte(),
    ensures
        sweep_rev(*final(sweep)) == sweep_rev(*old(sweep)),
        ({
            let entries = sweep_entries(*old(sweep));
            let room = under(entries, SWEEP_CAP as nat);
            &&& r == Ok::<bool, km43::ChangeError>(room)
            &&& sweep_entries(*final(sweep)) == (if room {
                entries.push((sig@, q.spec_byte(), prev.spec_byte()))
            } else {
                entries
            })
        }),
{
    sweep.push(&km43::VChange {
        sig: km43::Id::new(sig.get())?,
        q: km43::SignalQuality::from_byte(q.byte())?,
        prev: km43::SignalQuality::from_byte(prev.byte())?,
    })
}

/// Write a sweep of validities: `km43::ValidityChanged::encode`.
///
/// Trusted: the bytes are a function of the revision and the entries, named
/// [`validity_image`]. A sweep that holds entries takes at most eleven bytes
/// and eleven more for each of them, decodes to those entries, and is written
/// at the front of `dst` when it fits it; one that holds none, or does not
/// fit, is an error.
#[verifier::external_body]
pub(crate) fn write_sweep(sweep: &km43::ValidityChanged, dst: &mut [u8]) -> (r: Result<
    usize,
    km43::ChangeError,
>)
    ensures
        final(dst)@.len() == old(dst)@.len(),
        ({
            let entries = sweep_entries(*sweep);
            let bytes = validity_image(sweep_rev(*sweep), entries);
            if !holds_some(entries) {
                r is Err
            } else if bytes.len() <= old(dst)@.len() {
                &&& r matches Ok(len) && len == bytes.len() && sweep_of(bytes) == Some(
                    all_read(entries),
                )
                &&& final(dst)@ == spliced(old(dst)@, 0, bytes)
            } else {
                r is Err && bytes.len() <= 11 + 11 * entries.len()
            }
        }),
{
    sweep.encode(dst)
}

/// Read the entries of a sweep back: `km43::ValidityChanged::decode`.
///
/// Trusted: the entries, and which of them read, are a function of the bytes
/// alone, named [`sweep_of`].
#[verifier::external_body]
pub(crate) fn read_sweep(body: &[u8]) -> (r: Option<Vec<Option<(u16, u8, u8)>>>)
    ensures
        match sweep_of(body@) {
            Some(entries) => r matches Some(read) && read@ == entries,
            None => r is None,
        },
{
    match km43::ValidityChanged::decode(body) {
        Ok((_, entries)) => Some(
            entries.map(
                |one| one.ok().map(|one| (one.sig.get(), one.q.byte(), one.prev.byte())),
            ).collect(),
        ),
        Err(_) => None,
    }
}

/// An empty sweep of presences: `km43::PresenceChanged::new`.
///
/// Trusted: it holds no entry.
#[verifier::external_body]
pub(crate) fn new_presences(rev: u32) -> (r: km43::PresenceChanged)
    ensures
        presence_entries(r) == Seq::<(u16, u8, u8)>::empty(),
        presence_rev(r) == rev,
{
    km43::PresenceChanged::new(rev)
}

/// Try to add an entry to a sweep of presences: `km43::PresenceChanged::push`.
///
/// Trusted: an entry whose presence is the one it moved from is an error; one
/// that moves is taken while the sweep is under [`PRESENCE_CAP`] entries, and
/// otherwise the sweep is as it was.
#[verifier::external_body]
pub(crate) fn push_presence(
    sweep: &mut km43::PresenceChanged,
    dev: Id,
    presence: Presence,
    prev: Presence,
) -> (r: Result<bool, km43::ChangeError>)
    ensures
        presence_rev(*final(sweep)) == presence_rev(*old(sweep)),
        ({
            let entries = presence_entries(*old(sweep));
            if presence == prev {
                r is Err && presence_entries(*final(sweep)) == entries
            } else {
                let room = under(entries, PRESENCE_CAP as nat);
                &&& r matches Ok(taken) && taken == room
                &&& presence_entries(*final(sweep)) == (if room {
                    entries.push((dev@, presence.spec_number(), prev.spec_number()))
                } else {
                    entries
                })
            }
        }),
{
    let dev = km43::Id::new(dev.get())?;
    let named = [presence, prev].map(|one| match one {
        Presence::Online => km43::Presence::Online,
        Presence::Degraded => km43::Presence::Degraded,
        Presence::Offline => km43::Presence::Offline,
        Presence::NeverSeen => km43::Presence::NeverSeen,
    });
    sweep.push(&km43::PChange { dev, presence: named[0], prev: named[1] })
}

/// Write a sweep of presences: `km43::PresenceChanged::encode`.
///
/// Trusted: the bytes are a function of the revision and the entries, named
/// [`presence_image`]. A sweep that holds entries takes at most eleven bytes
/// and nine more for each of them, and is written at the front of `dst` when
/// it fits it; one that holds none, or does not fit, is an error.
#[verifier::external_body]
pub(crate) fn write_presences(sweep: &km43::PresenceChanged, dst: &mut [u8]) -> (r: Result<
    usize,
    km43::ChangeError,
>)
    ensures
        final(dst)@.len() == old(dst)@.len(),
        ({
            let entries = presence_entries(*sweep);
            let bytes = presence_image(presence_rev(*sweep), entries);
            if !holds_some(entries) {
                r is Err
            } else if bytes.len() <= old(dst)@.len() {
                &&& r matches Ok(len) && len == bytes.len()
                &&& final(dst)@ == spliced(old(dst)@, 0, bytes)
            } else {
                r is Err && bytes.len() <= 11 + 9 * entries.len()
            }
        }),
{
    sweep.encode(dst)
}

/// Write a topology change: `km43::TopologyChanged::encode`.
///
/// Trusted: the bytes are a function of the values alone, named
/// [`topology_image`]; they take at most eighteen bytes and are written at
/// the front of `dst` when they fit it.
#[verifier::external_body]
pub(crate) fn write_topology(changed: &TopologyChanged, dst: &mut [u8]) -> (r: Result<
    usize,
    km43::ChangeError,
>)
    ensures
        final(dst)@.len() == old(dst)@.len(),
        ({
            let bytes = topology_image(
                changed.rev,
                changed.reason.spec_number(),
                changed.added,
                changed.removed,
            );
            if bytes.len() <= old(dst)@.len() {
                &&& r matches Ok(len) && len == bytes.len()
                &&& final(dst)@ == spliced(old(dst)@, 0, bytes)
            } else {
                r is Err && bytes.len() <= 18
            }
        }),
{
    let reason = match changed.reason {
        TopologyChangeReason::Boot => km43::TopologyChangeReason::Boot,
        TopologyChangeReason::ConfigWrite => km43::TopologyChangeReason::ConfigWrite,
        TopologyChangeReason::SubDeviceAdopted => km43::TopologyChangeReason::SubDeviceAdopted,
        TopologyChangeReason::SubDeviceRemoved => km43::TopologyChangeReason::SubDeviceRemoved,
        TopologyChangeReason::DeviceReplaced => km43::TopologyChangeReason::DeviceReplaced,
    };
    let TopologyChanged { rev, added, removed, .. } = *changed;
    km43::TopologyChanged { rev, reason, added, removed }.encode(dst)
}

} // verus!
