//! The site's descriptors: the cold plane a client reads once and pages.
//!
//! The table changes only as a whole. [`Topology::apply`] takes a batch of
//! rows, checks every one of them against the table as it would stand, and
//! either takes them all under a new revision or refuses the batch and leaves
//! the table as it was. A page is rebuilt on every request: rows go out in id
//! order, a page ends at its row cap or its byte cap, and the digest rides on
//! the last page of a kind.

use crate::bytes::spliced;
use crate::reading::Id;
use crate::signals::SIGNAL_SLOTS;
use crate::site_rows::{
    Cell, Descriptor, InventoryOutcome, ReadInventory, RowKind, Sel, SiteBus, SiteComponent,
    SiteDevice, SiteSignal, TopologyChangeReason, TopologyChanged,
};
use crate::wire::{
    absorb_page, absorbed, check_row, digest_marks, finish_digest, flat, inventory_image,
    new_digest, new_page, page_marks, page_rows, page_stopped_at, push_row, row_image,
    topo_digest, write_inventory, PAGE_BYTES, PAGE_ROWS, ROW_BYTES, ROW_CELLS,
};
use vstd::prelude::*;

verus! {

broadcast use Id::same_number_same_id;

/// Buses the table holds. A ninth is refused.
pub const SITE_BUSES: usize = 8;

/// Devices the table holds. One past it is refused.
pub const SITE_DEVICES: usize = 24;

/// Component rows the table holds.
pub const SITE_COMPONENTS: usize = 48;

/// Signal rows: one per slot of the store, so a row the table holds always has
/// a reading and a reading always has a row.
pub const SITE_SIGNALS: usize = SIGNAL_SLOTS;

/// The deepest a chain of parents goes.
pub const MAX_TOPOLOGY_DEPTH: usize = 4;

/// Where the vendor range of metric kinds begins.
pub const VENDOR_KINDS: u16 = 0xF000;

/// A device row with the revision it appeared at.
#[derive(Debug, Clone, Copy, PartialEq, Eq)]
pub struct HeldDevice {
    /// The device.
    pub device: SiteDevice,
    /// The revision it appeared at.
    pub since: u32,
}

/// A component row with the revision it appeared at.
#[derive(Debug, Clone, Copy, PartialEq, Eq, Structural)]
pub struct HeldComponent {
    /// The component.
    pub component: SiteComponent,
    /// The revision it appeared at.
    pub since: u32,
}

/// Why a batch was refused. Nothing of it was taken.
#[derive(Debug, Clone, Copy, PartialEq, Eq)]
pub enum TopologyError {
    /// The table for this kind is full; nothing was evicted.
    Full(RowKind),
    /// The id is taken already.
    Duplicate(RowKind, u16),
    /// A device on a bus the table does not hold.
    NoSuchBus(u8),
    /// A device under a parent, or a signal on a device, the table does not
    /// hold.
    NoSuchDevice(u16),
    /// A component under a parent, or a signal at a component, that the table
    /// does not hold on the same device.
    NoSuchComponent(u16),
    /// A parent chain deeper than [`MAX_TOPOLOGY_DEPTH`].
    TooDeep(u16),
    /// A device on an addressed transport with no address, or one whose
    /// address another device on the bus already holds.
    Address(u16),
    /// A signal whose identity another signal already has.
    Collides(Id),
    /// A vendor-range metric kind, which this table cannot describe yet.
    VendorKind(Id),
    /// The row the declaration makes was refused.
    Row(km43::InventoryError),
    /// The revision is at the top of its range.
    RevisionExhausted,
}

/// The tables, their revision and their digest, as mathematics.
#[verifier::ext_equal]
pub struct Tables {
    /// The revision the rows stand at.
    pub rev: u32,
    /// The digest of the rows.
    pub digest: Seq<u8>,
    /// The buses, in id order.
    pub buses: Seq<SiteBus>,
    /// The devices, in id order.
    pub devices: Seq<HeldDevice>,
    /// The components, in id order.
    pub components: Seq<HeldComponent>,
    /// The signals, in id order.
    pub signals: Seq<SiteSignal>,
}

/// The bus `id`.
pub open spec fn find_bus(buses: Seq<SiteBus>, id: u8) -> Option<SiteBus>
    decreases buses.len(),
{
    if buses.len() == 0 {
        None
    } else if buses[0].bus == id {
        Some(buses[0])
    } else {
        find_bus(buses.skip(1), id)
    }
}

/// The device `id`.
pub open spec fn find_device(devices: Seq<HeldDevice>, id: u16) -> Option<HeldDevice>
    decreases devices.len(),
{
    if devices.len() == 0 {
        None
    } else if devices[0].device.dev == id {
        Some(devices[0])
    } else {
        find_device(devices.skip(1), id)
    }
}

/// The component `id`.
pub open spec fn find_component(components: Seq<HeldComponent>, id: Id) -> Option<HeldComponent>
    decreases components.len(),
{
    if components.len() == 0 {
        None
    } else if components[0].component.comp == id {
        Some(components[0])
    } else {
        find_component(components.skip(1), id)
    }
}

/// The signal `id`.
pub open spec fn find_signal(signals: Seq<SiteSignal>, id: Id) -> Option<SiteSignal>
    decreases signals.len(),
{
    if signals.len() == 0 {
        None
    } else if signals[0].sig == id {
        Some(signals[0])
    } else {
        find_signal(signals.skip(1), id)
    }
}

/// Why the chain of device parents from `at` is refused for device `dev`, with
/// `left` hops to go: a parent that is not held, or too many of them.
pub open spec fn device_chain(
    devices: Seq<HeldDevice>,
    at: Option<u16>,
    left: nat,
    dev: u16,
) -> Option<TopologyError>
    decreases left,
{
    match at {
        None => None,
        Some(here) => match find_device(devices, here) {
            None => Some(TopologyError::NoSuchDevice(here)),
            Some(held) => if left == 0 {
                Some(TopologyError::TooDeep(dev))
            } else {
                device_chain(devices, held.device.parent, (left - 1) as nat, dev)
            },
        },
    }
}

/// Why the chain of component parents from `at` is refused for component `comp`
/// of device `dev`, with `left` hops to go.
pub open spec fn component_chain(
    components: Seq<HeldComponent>,
    at: Option<Id>,
    left: nat,
    dev: u16,
    comp: Id,
) -> Option<TopologyError>
    decreases left,
{
    match at {
        None => None,
        Some(here) => match find_component(components, here) {
            Some(held) if held.component.dev == dev => if left == 0 {
                Some(TopologyError::TooDeep(comp@))
            } else {
                component_chain(components, held.component.parent, (left - 1) as nat, dev, comp)
            },
            _ => Some(TopologyError::NoSuchComponent(here@)),
        },
    }
}

/// Whether the chain of device parents from `at` reaches `dev` within `hops`.
pub open spec fn device_reaches(
    devices: Seq<HeldDevice>,
    at: Option<u16>,
    dev: u16,
    hops: nat,
) -> bool
    decreases hops,
{
    match at {
        Some(here) => hops > 0 && (here == dev || device_reaches(
            devices,
            match find_device(devices, here) {
                Some(held) => held.device.parent,
                None => None,
            },
            dev,
            (hops - 1) as nat,
        )),
        None => false,
    }
}

/// Whether the chain of component parents from `at` reaches `comp` within
/// `hops`.
pub open spec fn component_reaches(
    components: Seq<HeldComponent>,
    at: Option<Id>,
    comp: Id,
    hops: nat,
) -> bool
    decreases hops,
{
    match at {
        Some(here) => hops > 0 && (here == comp || component_reaches(
            components,
            match find_component(components, here) {
                Some(held) => held.component.parent,
                None => None,
            },
            comp,
            (hops - 1) as nat,
        )),
        None => false,
    }
}

/// Whether another device on the same bus holds the same address.
pub open spec fn address_clash(devices: Seq<HeldDevice>, device: SiteDevice) -> bool {
    device.addr matches Some(addr) && exists|i: int|
        0 <= i < devices.len() && (#[trigger] devices[i]).device.bus == device.bus
            && devices[i].device.addr is Some && devices[i].device.addr->0@ == addr@
}

/// Whether two signals are the same reading: every signal here is a scalar, so
/// their shape agrees.
pub open spec fn same_identity_spec(a: SiteSignal, b: SiteSignal) -> bool {
    &&& a.dev == b.dev
    &&& a.comp == b.comp
    &&& a.kind == b.kind
    &&& a.vtype == b.vtype
    &&& a.domain == b.domain
    &&& a.point == b.point
    &&& a.dir == b.dir
}

/// A bus as it goes out.
pub open spec fn bus_cells(bus: SiteBus) -> Seq<Cell> {
    seq![
        Cell::U8(bus.bus),
        Cell::U8(bus.transport.spec_number()),
        Cell::Absent,
        match bus.rate {
            Some(rate) => Cell::U32(rate),
            None => Cell::Absent,
        },
    ]
}

/// A device as it goes out.
pub open spec fn device_cells(held: HeldDevice) -> Seq<Cell> {
    let device = held.device;
    seq![
        Cell::U16(device.dev),
        Cell::U8(device.bus),
        match device.addr {
            Some(addr) => Cell::Bytes(addr),
            None => Cell::Absent,
        },
        Cell::U16(device.product.0),
        Cell::U16(device.dialect.0),
        Cell::U16(device.role.0),
        match device.parent {
            Some(parent) => Cell::U16(parent),
            None => Cell::Absent,
        },
        Cell::Absent,
        Cell::Absent,
        Cell::Absent,
        Cell::Absent,
        Cell::U32(held.since),
        Cell::Absent,
    ]
}

/// A component as it goes out.
pub open spec fn component_cells(held: HeldComponent) -> Seq<Cell> {
    let component = held.component;
    seq![
        Cell::U16(component.comp@),
        Cell::U16(component.dev),
        match component.parent {
            Some(parent) => Cell::U16(parent@),
            None => Cell::Absent,
        },
        Cell::U16(component.role.0),
        match component.index {
            Some(index) => Cell::U16(index),
            None => Cell::Absent,
        },
        Cell::Absent,
        Cell::Absent,
        Cell::Absent,
        Cell::U32(held.since),
    ]
}

/// A signal as it goes out: a scalar, component zero for the device as a
/// whole.
pub open spec fn signal_cells(signal: SiteSignal) -> Seq<Cell> {
    seq![
        Cell::U16(signal.sig@),
        Cell::U16(signal.dev),
        Cell::U16(
            match signal.comp {
                Some(comp) => comp@,
                None => 0,
            },
        ),
        Cell::U16(signal.kind.0),
        Cell::U8(1),
        Cell::U8(signal.vtype.spec_number()),
        Cell::U8(signal.domain.spec_number()),
        match signal.point {
            Some(point) => Cell::U16(point.0),
            None => Cell::Absent,
        },
        match signal.dir {
            Some(dir) => Cell::U8(dir.spec_number()),
            None => Cell::Absent,
        },
        Cell::Absent,
        Cell::Absent,
        Cell::Absent,
        match signal.esp {
            Some(esp) => Cell::U16(esp.0),
            None => Cell::Absent,
        },
        Cell::Absent,
        Cell::Absent,
        Cell::Absent,
        Cell::Absent,
        Cell::Absent,
    ]
}

/// What taking a row, or a batch of them, comes to.
pub enum Taking {
    /// Refused, and why.
    Refused(TopologyError),
    /// Refused by the row's own table.
    BadRow,
    /// Taken.
    Taken(Tables),
}

/// The first position whose id is above `id`, the end when none is.
pub open spec fn place_of(ids: Seq<int>, id: int) -> int
    decreases ids.len(),
{
    if ids.len() == 0 || ids[0] > id {
        0
    } else {
        1 + place_of(ids.skip(1), id)
    }
}

/// The ids of the buses.
pub open spec fn bus_ids(buses: Seq<SiteBus>) -> Seq<int> {
    buses.map_values(|bus: SiteBus| bus.bus as int)
}

/// The ids of the devices.
pub open spec fn device_ids(devices: Seq<HeldDevice>) -> Seq<int> {
    devices.map_values(|held: HeldDevice| held.device.dev as int)
}

/// The ids of the components.
pub open spec fn component_ids(components: Seq<HeldComponent>) -> Seq<int> {
    components.map_values(|held: HeldComponent| held.component.comp@ as int)
}

/// The ids of the signals.
pub open spec fn signal_ids(signals: Seq<SiteSignal>) -> Seq<int> {
    signals.map_values(|signal: SiteSignal| signal.sig@ as int)
}

/// Take a bus: its id its own, its row one its table takes, and room for it.
pub open spec fn take_bus(tables: Tables, bus: SiteBus) -> Taking {
    if find_bus(tables.buses, bus.bus) is Some {
        Taking::Refused(TopologyError::Duplicate(RowKind::Bus, bus.bus as u16))
    } else if row_image(RowKind::Bus.spec_number(), bus_cells(bus)) is None {
        Taking::BadRow
    } else if tables.buses.len() >= SITE_BUSES {
        Taking::Refused(TopologyError::Full(RowKind::Bus))
    } else {
        Taking::Taken(
            Tables {
                buses: tables.buses.insert(
                    place_of(bus_ids(tables.buses), bus.bus as int),
                    bus,
                ),
                ..tables
            },
        )
    }
}

/// Take a device: its id its own, on a bus that is held, with an address where
/// one is needed and no other device's, and under a parent that is held.
pub open spec fn take_device(tables: Tables, device: SiteDevice, rev: u32) -> Taking {
    let held = HeldDevice { device, since: rev };
    if find_device(tables.devices, device.dev) is Some {
        Taking::Refused(TopologyError::Duplicate(RowKind::Device, device.dev))
    } else if find_bus(tables.buses, device.bus) is None {
        Taking::Refused(TopologyError::NoSuchBus(device.bus))
    } else if (find_bus(tables.buses, device.bus)->0.transport.addressed() && device.addr is None)
        || address_clash(tables.devices, device) {
        Taking::Refused(TopologyError::Address(device.dev))
    } else if device_chain(
        tables.devices,
        device.parent,
        (MAX_TOPOLOGY_DEPTH - 1) as nat,
        device.dev,
    ) is Some {
        Taking::Refused(
            device_chain(
                tables.devices,
                device.parent,
                (MAX_TOPOLOGY_DEPTH - 1) as nat,
                device.dev,
            )->0,
        )
    } else if row_image(RowKind::Device.spec_number(), device_cells(held)) is None {
        Taking::BadRow
    } else if tables.devices.len() >= SITE_DEVICES {
        Taking::Refused(TopologyError::Full(RowKind::Device))
    } else {
        Taking::Taken(
            Tables {
                devices: tables.devices.insert(
                    place_of(device_ids(tables.devices), device.dev as int),
                    held,
                ),
                ..tables
            },
        )
    }
}

/// Take a component: its id its own, of a device that is held, under a parent
/// held on the same device.
pub open spec fn take_component(tables: Tables, component: SiteComponent, rev: u32) -> Taking {
    let held = HeldComponent { component, since: rev };
    if find_component(tables.components, component.comp) is Some {
        Taking::Refused(TopologyError::Duplicate(RowKind::Component, component.comp@))
    } else if find_device(tables.devices, component.dev) is None {
        Taking::Refused(TopologyError::NoSuchDevice(component.dev))
    } else if component_chain(
        tables.components,
        component.parent,
        (MAX_TOPOLOGY_DEPTH - 1) as nat,
        component.dev,
        component.comp,
    ) is Some {
        Taking::Refused(
            component_chain(
                tables.components,
                component.parent,
                (MAX_TOPOLOGY_DEPTH - 1) as nat,
                component.dev,
                component.comp,
            )->0,
        )
    } else if row_image(RowKind::Component.spec_number(), component_cells(held)) is None {
        Taking::BadRow
    } else if tables.components.len() >= SITE_COMPONENTS {
        Taking::Refused(TopologyError::Full(RowKind::Component))
    } else {
        Taking::Taken(
            Tables {
                components: tables.components.insert(
                    place_of(component_ids(tables.components), component.comp@ as int),
                    held,
                ),
                ..tables
            },
        )
    }
}

/// Take a signal: its id its own, on a device that is held, at a component of
/// that device, of a kind this table describes, and not the same reading as
/// another.
pub open spec fn take_signal(tables: Tables, signal: SiteSignal) -> Taking {
    if find_signal(tables.signals, signal.sig) is Some {
        Taking::Refused(TopologyError::Duplicate(RowKind::Signal, signal.sig@))
    } else if find_device(tables.devices, signal.dev) is None {
        Taking::Refused(TopologyError::NoSuchDevice(signal.dev))
    } else if signal.comp matches Some(comp) && !(find_component(
        tables.components,
        comp,
    ) matches Some(held) && held.component.dev == signal.dev) {
        Taking::Refused(TopologyError::NoSuchComponent(signal.comp->0@))
    } else if signal.kind.0 >= VENDOR_KINDS {
        Taking::Refused(TopologyError::VendorKind(signal.sig))
    } else if exists|i: int|
        0 <= i < tables.signals.len() && same_identity_spec(#[trigger] tables.signals[i], signal) {
        Taking::Refused(TopologyError::Collides(signal.sig))
    } else if row_image(RowKind::Signal.spec_number(), signal_cells(signal)) is None {
        Taking::BadRow
    } else if tables.signals.len() >= SITE_SIGNALS {
        Taking::Refused(TopologyError::Full(RowKind::Signal))
    } else {
        Taking::Taken(
            Tables {
                signals: tables.signals.insert(
                    place_of(signal_ids(tables.signals), signal.sig@ as int),
                    signal,
                ),
                ..tables
            },
        )
    }
}

/// Take one row at revision `rev`.
pub open spec fn take_row(tables: Tables, declared: Descriptor, rev: u32) -> Taking {
    match declared {
        Descriptor::Bus(bus) => take_bus(tables, bus),
        Descriptor::Device(device) => take_device(tables, device, rev),
        Descriptor::Component(component) => take_component(tables, component, rev),
        Descriptor::Signal(signal) => take_signal(tables, signal),
    }
}

/// Take a batch, each row against the table with the rows before it; the first
/// refusal is the batch's.
pub open spec fn take_all(tables: Tables, batch: Seq<Descriptor>, rev: u32) -> Taking
    decreases batch.len(),
{
    if batch.len() == 0 {
        Taking::Taken(tables)
    } else {
        match take_all(tables, batch.drop_last(), rev) {
            Taking::Taken(so_far) => take_row(so_far, batch.last(), rev),
            refused => refused,
        }
    }
}

/// One row as a page carries it.
pub struct Listed {
    /// Its id.
    pub id: u16,
    /// Its values.
    pub cells: Seq<Cell>,
}

/// The rows of one kind, in id order.
pub open spec fn listing(tables: Tables, kind: RowKind) -> Seq<Listed> {
    match kind {
        RowKind::Bus => tables.buses.map_values(
            |bus: SiteBus| Listed { id: bus.bus as u16, cells: bus_cells(bus) },
        ),
        RowKind::Device => tables.devices.map_values(
            |held: HeldDevice| Listed { id: held.device.dev, cells: device_cells(held) },
        ),
        RowKind::Component => tables.components.map_values(
            |held: HeldComponent|
                Listed { id: held.component.comp@, cells: component_cells(held) },
        ),
        RowKind::Signal => tables.signals.map_values(
            |signal: SiteSignal| Listed { id: signal.sig@, cells: signal_cells(signal) },
        ),
        RowKind::Param => Seq::empty(),
    }
}

/// The bytes a listed row goes out as.
pub open spec fn image_of(row: Listed, kind: RowKind) -> Seq<u8> {
    row_image(kind.spec_number(), row.cells)->0
}

/// Whether a row goes out: its own table takes it, and it is no longer than a
/// row may be.
pub open spec fn sendable(row: Listed, kind: RowKind) -> bool {
    row_image(kind.spec_number(), row.cells) matches Some(bytes) && bytes.len() <= ROW_BYTES
}

/// A page of rows: each row's bytes, and where it stopped.
#[verifier::ext_equal]
pub struct Paged {
    /// The rows.
    pub rows: Seq<Seq<u8>>,
    /// The id of the row it had no room for, zero when it took them all.
    pub next: u16,
}

/// Whether a page has room for one more row.
pub open spec fn room_for(page: Paged, bytes: Seq<u8>) -> bool {
    page.rows.len() < PAGE_ROWS && flat(page.rows).len() + bytes.len() <= PAGE_BYTES
}

/// A page filled from `rows`, skipping ids below `from`, until it is full.
pub open spec fn filled(rows: Seq<Listed>, kind: RowKind, from: u16, page: Paged) -> Paged
    decreases rows.len(),
{
    if rows.len() == 0 {
        page
    } else if rows[0].id < from {
        filled(rows.skip(1), kind, from, page)
    } else if room_for(page, image_of(rows[0], kind)) {
        filled(
            rows.skip(1),
            kind,
            from,
            Paged { rows: page.rows.push(image_of(rows[0], kind)), next: page.next },
        )
    } else {
        Paged { rows: page.rows, next: rows[0].id }
    }
}

/// The page of one kind from `from` on.
pub open spec fn page_from(tables: Tables, kind: RowKind, from: u16) -> Paged {
    filled(listing(tables, kind), kind, from, Paged { rows: Seq::empty(), next: 0 })
}

/// Every byte the rows go out as, in order.
pub open spec fn sent(rows: Seq<Listed>, kind: RowKind) -> Seq<u8>
    decreases rows.len(),
{
    if rows.len() == 0 {
        Seq::empty()
    } else {
        image_of(rows[0], kind) + sent(rows.skip(1), kind)
    }
}

/// Every byte of every row, kind by kind and in id order.
pub open spec fn all_sent(tables: Tables) -> Seq<u8> {
    sent(listing(tables, RowKind::Bus), RowKind::Bus) + sent(
        listing(tables, RowKind::Device),
        RowKind::Device,
    ) + sent(listing(tables, RowKind::Component), RowKind::Component) + sent(
        listing(tables, RowKind::Signal),
        RowKind::Signal,
    )
}

/// The tables after a batch was taken at revision `rev`: the digest is of the
/// rows as they then stand.
pub open spec fn moved(taken: Tables, rev: u32) -> Tables {
    Tables { rev, digest: topo_digest(rev, all_sent(taken)), ..taken }
}

/// Rows of every kind.
pub open spec fn row_count(tables: Tables) -> nat {
    tables.buses.len() + tables.devices.len() + tables.components.len() + tables.signals.len()
}

/// Whether ids stand in strictly ascending order.
pub open spec fn ascending_ids(ids: Seq<int>) -> bool {
    forall|i: int, j: int| 0 <= i < j < ids.len() ==> ids[i] < ids[j]
}

impl Tables {
    /// Each table within its room and in id order, every row one that goes out.
    pub open spec fn wf(self) -> bool {
        &&& self.buses.len() <= SITE_BUSES
        &&& self.devices.len() <= SITE_DEVICES
        &&& self.components.len() <= SITE_COMPONENTS
        &&& self.signals.len() <= SITE_SIGNALS
        &&& ascending_ids(bus_ids(self.buses))
        &&& ascending_ids(device_ids(self.devices))
        &&& ascending_ids(component_ids(self.components))
        &&& ascending_ids(signal_ids(self.signals))
        &&& forall|i: int|
            0 <= i < self.components.len() ==> (#[trigger] self.components[i]).component.comp@ > 0
        &&& forall|i: int| 0 <= i < self.signals.len() ==> (#[trigger] self.signals[i]).sig@ > 0
        &&& forall|kind: RowKind, i: int|
            0 <= i < listing(self, kind).len() ==> sendable(
                #[trigger] listing(self, kind)[i],
                kind,
            )
    }
}

/// How a request is answered, and the number of rows of its kind.
pub open spec fn outcome_of(tables: Tables, request: ReadInventory) -> InventoryOutcome {
    let kind = RowKind::spec_of(request.what);
    if request.rev != 0 && request.rev != tables.rev {
        InventoryOutcome::Superseded
    } else if kind is None {
        InventoryOutcome::UnknownKind
    } else if request.from != 0 && !(listing(tables, kind->0).len() > 0 && request.from <= listing(
        tables,
        kind->0,
    ).last().id) {
        InventoryOutcome::OutOfRange
    } else {
        InventoryOutcome::Answered
    }
}

/// The body a request is answered with.
pub open spec fn answer_of(tables: Tables, request: ReadInventory) -> Option<Seq<u8>> {
    let kind = RowKind::spec_of(request.what);
    let outcome = outcome_of(tables, request);
    let total: u16 = match kind {
        Some(kind) => listing(tables, kind).len() as u16,
        None => 0,
    };
    if outcome is Answered {
        let page = page_from(tables, kind->0, request.from);
        inventory_image(
            tables.rev,
            request.what,
            outcome.spec_number(),
            total,
            Some((page.rows, page.next)),
            if page.next == 0 && request.dev is None {
                Some(tables.digest)
            } else {
                None
            },
        )
    } else {
        inventory_image(tables.rev, request.what, outcome.spec_number(), total, None, None)
    }
}

/// Whether a selector names something.
pub open spec fn known(tables: Tables, sel: Sel) -> bool {
    match sel {
        Sel::Dev(dev) => find_device(tables.devices, dev@) is Some,
        Sel::Comp(comp) => find_component(tables.components, comp) is Some,
        Sel::Sig(sig) => find_signal(tables.signals, sig) is Some,
    }
}

/// Whether a selector selects a signal: the signal itself, a component whose
/// chain of parents reaches the one named, or a device whose chain does.
pub open spec fn selected_by(tables: Tables, sel: Sel, signal: SiteSignal) -> bool {
    match sel {
        Sel::Sig(sig) => sig == signal.sig,
        Sel::Comp(comp) => component_reaches(
            tables.components,
            signal.comp,
            comp,
            (MAX_TOPOLOGY_DEPTH + 1) as nat,
        ),
        Sel::Dev(dev) => device_reaches(
            tables.devices,
            Some(signal.dev),
            dev@,
            (MAX_TOPOLOGY_DEPTH + 1) as nat,
        ),
    }
}

/// A position after every id not above `id` and before the first above it is
/// where `id` goes.
proof fn lemma_place(ids: Seq<int>, id: int, at: int)
    requires
        0 <= at <= ids.len(),
        forall|i: int| 0 <= i < at ==> ids[i] <= id,
        at < ids.len() ==> ids[at] > id,
    ensures
        place_of(ids, id) == at,
    decreases ids.len(),
{
    if at > 0 {
        lemma_place(ids.skip(1), id, at - 1);
    }
}

/// What a place is.
proof fn lemma_place_is(ids: Seq<int>, id: int)
    ensures
        0 <= place_of(ids, id) <= ids.len(),
        forall|i: int| 0 <= i < place_of(ids, id) ==> ids[i] <= id,
        place_of(ids, id) < ids.len() ==> ids[place_of(ids, id)] > id,
    decreases ids.len(),
{
    if ids.len() > 0 && ids[0] <= id {
        let rest = ids.skip(1);
        lemma_place_is(rest, id);
        assert forall|i: int| 0 <= i < place_of(ids, id) implies ids[i] <= id by {
            if i > 0 {
                assert(rest[i - 1] == ids[i]);
            }
        }
    }
}

/// Putting a new id in its place keeps ids ascending.
proof fn lemma_insert_ascending(ids: Seq<int>, id: int)
    requires
        ascending_ids(ids),
        forall|i: int| 0 <= i < ids.len() ==> ids[i] != id,
    ensures
        ascending_ids(ids.insert(place_of(ids, id), id)),
{
    lemma_place_is(ids, id);
    let at = place_of(ids, id);
    let left = ids.insert(at, id);
    assert forall|i: int, j: int| 0 <= i < j < left.len() implies left[i] < left[j] by {
        let a = if i < at {
            i
        } else {
            i - 1
        };
        let b = if j < at {
            j
        } else {
            j - 1
        };
        if i == at {
            assert(left[j] == ids[j - 1]);
        } else if j == at {
            assert(left[i] == ids[i]);
        } else {
            assert(left[i] == ids[a] && left[j] == ids[b]);
        }
    }
}

/// A bus that is not found has an id no held bus has.
proof fn lemma_no_bus(buses: Seq<SiteBus>, id: u8)
    requires
        find_bus(buses, id) is None,
    ensures
        forall|i: int| 0 <= i < buses.len() ==> (#[trigger] buses[i]).bus != id,
    decreases buses.len(),
{
    if buses.len() > 0 {
        lemma_no_bus(buses.skip(1), id);
        assert forall|i: int| 0 <= i < buses.len() implies (#[trigger] buses[i]).bus != id by {
            if i > 0 {
                assert(buses.skip(1)[i - 1] == buses[i]);
            }
        }
    }
}

/// A device that is not found has an id no held device has.
proof fn lemma_no_device(devices: Seq<HeldDevice>, id: u16)
    requires
        find_device(devices, id) is None,
    ensures
        forall|i: int| 0 <= i < devices.len() ==> (#[trigger] devices[i]).device.dev != id,
    decreases devices.len(),
{
    if devices.len() > 0 {
        lemma_no_device(devices.skip(1), id);
        assert forall|i: int| 0 <= i < devices.len() implies (#[trigger] devices[i]).device.dev
            != id by {
            if i > 0 {
                assert(devices.skip(1)[i - 1] == devices[i]);
            }
        }
    }
}

/// A component that is not found has an id no held component has.
proof fn lemma_no_component(components: Seq<HeldComponent>, id: Id)
    requires
        find_component(components, id) is None,
    ensures
        forall|i: int|
            0 <= i < components.len() ==> (#[trigger] components[i]).component.comp@ != id@,
    decreases components.len(),
{
    if components.len() > 0 {
        lemma_no_component(components.skip(1), id);
        assert forall|i: int|
            0 <= i < components.len() implies (#[trigger] components[i]).component.comp@
            != id@ by {
            if i > 0 {
                assert(components.skip(1)[i - 1] == components[i]);
            }
        }
    }
}

/// A signal that is not found has an id no held signal has.
proof fn lemma_no_signal(signals: Seq<SiteSignal>, id: Id)
    requires
        find_signal(signals, id) is None,
    ensures
        forall|i: int| 0 <= i < signals.len() ==> (#[trigger] signals[i]).sig@ != id@,
    decreases signals.len(),
{
    if signals.len() > 0 {
        lemma_no_signal(signals.skip(1), id);
        assert forall|i: int| 0 <= i < signals.len() implies (#[trigger] signals[i]).sig@
            != id@ by {
            if i > 0 {
                assert(signals.skip(1)[i - 1] == signals[i]);
            }
        }
    }
}

/// Taking a bus leaves tables that hold what they may.
proof fn lemma_bus_taken(tables: Tables, bus: SiteBus)
    requires
        tables.wf(),
        take_bus(tables, bus) is Taken,
        row_image(RowKind::Bus.spec_number(), bus_cells(bus)) matches Some(bytes) ==> bytes.len() <= ROW_BYTES,
    ensures
        take_bus(tables, bus)->Taken_0.wf(),
{
    let row = bus;
    let left = take_bus(tables, bus)->Taken_0;
    let ids = bus_ids(tables.buses);
    let id = bus.bus as int;
    let at = place_of(ids, id);
    lemma_no_bus(tables.buses, bus.bus);
    lemma_place_is(ids, id);
    assert forall|i: int| 0 <= i < ids.len() implies ids[i] != id by {
        assert(ids[i] == bus_ids(tables.buses)[i]);
        let held = tables.buses[i];
    }
    lemma_insert_ascending(ids, id);
    assert(bus_ids(left.buses) =~= ids.insert(at, id));
    assert forall|kind: RowKind, i: int| 0 <= i < listing(left, kind).len() implies sendable(
        #[trigger] listing(left, kind)[i],
        kind,
    ) by {
        if kind is Bus {
            if i < at {
                assert(left.buses[i] == tables.buses[i]);
                assert(sendable(listing(tables, kind)[i], kind));
            } else if i > at {
                assert(left.buses[i] == tables.buses[i - 1]);
                assert(sendable(listing(tables, kind)[i - 1], kind));
            }
        } else {
            assert(listing(left, kind) == listing(tables, kind));
            assert(sendable(listing(tables, kind)[i], kind));
        }
    }
}

/// Taking a device leaves tables that hold what they may.
proof fn lemma_device_taken(tables: Tables, device: SiteDevice, rev: u32)
    requires
        tables.wf(),
        take_device(tables, device, rev) is Taken,
        row_image(
            RowKind::Device.spec_number(),
            device_cells(HeldDevice { device, since: rev }),
        ) matches Some(bytes) ==> bytes.len() <= ROW_BYTES,
    ensures
        take_device(tables, device, rev)->Taken_0.wf(),
{
    let row = HeldDevice { device, since: rev };
    let left = take_device(tables, device, rev)->Taken_0;
    let ids = device_ids(tables.devices);
    let id = device.dev as int;
    let at = place_of(ids, id);
    lemma_no_device(tables.devices, device.dev);
    lemma_place_is(ids, id);
    assert forall|i: int| 0 <= i < ids.len() implies ids[i] != id by {
        assert(ids[i] == device_ids(tables.devices)[i]);
        let held = tables.devices[i];
    }
    lemma_insert_ascending(ids, id);
    assert(device_ids(left.devices) =~= ids.insert(at, id));
    assert forall|kind: RowKind, i: int| 0 <= i < listing(left, kind).len() implies sendable(
        #[trigger] listing(left, kind)[i],
        kind,
    ) by {
        if kind is Device {
            if i < at {
                assert(left.devices[i] == tables.devices[i]);
                assert(sendable(listing(tables, kind)[i], kind));
            } else if i > at {
                assert(left.devices[i] == tables.devices[i - 1]);
                assert(sendable(listing(tables, kind)[i - 1], kind));
            }
        } else {
            assert(listing(left, kind) == listing(tables, kind));
            assert(sendable(listing(tables, kind)[i], kind));
        }
    }
}

/// Taking a component leaves tables that hold what they may.
proof fn lemma_component_taken(tables: Tables, component: SiteComponent, rev: u32)
    requires
        tables.wf(),
        take_component(tables, component, rev) is Taken,
        row_image(
            RowKind::Component.spec_number(),
            component_cells(HeldComponent { component, since: rev }),
        ) matches Some(bytes) ==> bytes.len() <= ROW_BYTES,
        component.comp@ > 0,
    ensures
        take_component(tables, component, rev)->Taken_0.wf(),
{
    let row = HeldComponent { component, since: rev };
    let left = take_component(tables, component, rev)->Taken_0;
    let ids = component_ids(tables.components);
    let id = component.comp@ as int;
    let at = place_of(ids, id);
    lemma_no_component(tables.components, component.comp);
    lemma_place_is(ids, id);
    assert forall|i: int| 0 <= i < ids.len() implies ids[i] != id by {
        assert(ids[i] == component_ids(tables.components)[i]);
        let held = tables.components[i];
    }
    lemma_insert_ascending(ids, id);
    assert(component_ids(left.components) =~= ids.insert(at, id));
    assert forall|kind: RowKind, i: int| 0 <= i < listing(left, kind).len() implies sendable(
        #[trigger] listing(left, kind)[i],
        kind,
    ) by {
        if kind is Component {
            if i < at {
                assert(left.components[i] == tables.components[i]);
                assert(sendable(listing(tables, kind)[i], kind));
            } else if i > at {
                assert(left.components[i] == tables.components[i - 1]);
                assert(sendable(listing(tables, kind)[i - 1], kind));
            }
        } else {
            assert(listing(left, kind) == listing(tables, kind));
            assert(sendable(listing(tables, kind)[i], kind));
        }
    }
}

/// Taking a signal leaves tables that hold what they may.
proof fn lemma_signal_taken(tables: Tables, signal: SiteSignal)
    requires
        tables.wf(),
        take_signal(tables, signal) is Taken,
        row_image(RowKind::Signal.spec_number(), signal_cells(signal)) matches Some(bytes) ==> bytes.len() <= ROW_BYTES,
        signal.sig@ > 0,
    ensures
        take_signal(tables, signal)->Taken_0.wf(),
{
    let row = signal;
    let left = take_signal(tables, signal)->Taken_0;
    let ids = signal_ids(tables.signals);
    let id = signal.sig@ as int;
    let at = place_of(ids, id);
    lemma_no_signal(tables.signals, signal.sig);
    lemma_place_is(ids, id);
    assert forall|i: int| 0 <= i < ids.len() implies ids[i] != id by {
        assert(ids[i] == signal_ids(tables.signals)[i]);
        let held = tables.signals[i];
    }
    lemma_insert_ascending(ids, id);
    assert(signal_ids(left.signals) =~= ids.insert(at, id));
    assert forall|kind: RowKind, i: int| 0 <= i < listing(left, kind).len() implies sendable(
        #[trigger] listing(left, kind)[i],
        kind,
    ) by {
        if kind is Signal {
            if i < at {
                assert(left.signals[i] == tables.signals[i]);
                assert(sendable(listing(tables, kind)[i], kind));
            } else if i > at {
                assert(left.signals[i] == tables.signals[i - 1]);
                assert(sendable(listing(tables, kind)[i - 1], kind));
            }
        } else {
            assert(listing(left, kind) == listing(tables, kind));
            assert(sendable(listing(tables, kind)[i], kind));
        }
    }
}

/// A refused row refuses the batch, whatever follows it.
proof fn lemma_refusal_stays(tables: Tables, batch: Seq<Descriptor>, rev: u32, n: int)
    requires
        0 <= n <= batch.len(),
        !(take_all(tables, batch.take(n), rev) is Taken),
    ensures
        take_all(tables, batch, rev) == take_all(tables, batch.take(n), rev),
    decreases batch.len(),
{
    if n < batch.len() {
        assert(batch.drop_last().take(n) =~= batch.take(n));
        lemma_refusal_stays(tables, batch.drop_last(), rev, n);
    } else {
        assert(batch.take(n) =~= batch);
    }
}

/// Put `row` before the first held row `above` says it precedes, keeping the
/// rows in id order; `None` when there is no room.
pub fn insert<T: Copy, F: Fn(&T) -> bool>(slots: &mut Vec<T>, room: usize, row: T, above: F) -> (r:
    Option<()>)
    requires
        forall|i: int| 0 <= i < old(slots)@.len() ==> call_requires(above, (&old(slots)@[i],)),
    ensures
        old(slots)@.len() >= room ==> r is None && final(slots)@ == old(slots)@,
        old(slots)@.len() < room ==> r is Some && exists|at: int|
            #![trigger old(slots)@.insert(at, row)]
            {
                &&& 0 <= at <= old(slots)@.len()
                &&& forall|i: int| 0 <= i < at ==> call_ensures(above, (&old(slots)@[i],), false)
                &&& at < old(slots)@.len() ==> call_ensures(above, (&old(slots)@[at],), true)
                &&& final(slots)@ == old(slots)@.insert(at, row)
            },
{
    if slots.len() >= room {
        return None;
    }
    let mut at: usize = 0;
    while at < slots.len()
        invariant
            at <= slots@.len(),
            slots@ == old(slots)@,
            forall|i: int| 0 <= i < slots@.len() ==> call_requires(above, (&slots@[i],)),
            forall|i: int| 0 <= i < at ==> call_ensures(above, (&slots@[i],), false),
        ensures
            at <= slots@.len(),
            slots@ == old(slots)@,
            forall|i: int| 0 <= i < at ==> call_ensures(above, (&slots@[i],), false),
            at < slots@.len() ==> call_ensures(above, (&slots@[at as int],), true),
        decreases slots@.len() - at,
    {
        if above(&slots[at]) {
            break ;
        }
        at = at + 1;
    }
    slots.insert(at, row);
    proof {
        assert(slots@ =~= old(slots)@.insert(at as int, row));
    }
    Some(())
}

/// A copy of a table.
fn copy_of<T: Copy>(rows: &Vec<T>) -> (r: Vec<T>)
    ensures
        r@ == rows@,
{
    let mut out: Vec<T> = Vec::new();
    let mut i: usize = 0;
    while i < rows.len()
        invariant
            i <= rows@.len(),
            out@ == rows@.take(i as int),
        decreases rows@.len() - i,
    {
        out.push(rows[i]);
        proof {
            assert(rows@.take(i + 1) =~= rows@.take(i as int).push(rows@[i as int]));
        }
        i = i + 1;
    }
    proof {
        assert(rows@.take(i as int) =~= rows@);
    }
    out
}

fn bus_values(bus: &SiteBus) -> (r: Vec<Cell>)
    ensures
        r@ == bus_cells(*bus),
{
    let mut out: Vec<Cell> = Vec::new();
    out.push(Cell::U8(bus.bus));
    out.push(Cell::U8(bus.transport.number()));
    out.push(Cell::Absent);
    out.push(
        match bus.rate {
            Some(rate) => Cell::U32(rate),
            None => Cell::Absent,
        },
    );
    proof {
        assert(out@ =~= bus_cells(*bus));
    }
    out
}

fn device_values(held: &HeldDevice) -> (r: Vec<Cell>)
    ensures
        r@ == device_cells(*held),
{
    let device = &held.device;
    let mut out: Vec<Cell> = Vec::new();
    out.push(Cell::U16(device.dev));
    out.push(Cell::U8(device.bus));
    out.push(
        match device.addr {
            Some(addr) => Cell::Bytes(addr),
            None => Cell::Absent,
        },
    );
    out.push(Cell::U16(device.product.0));
    out.push(Cell::U16(device.dialect.0));
    out.push(Cell::U16(device.role.0));
    out.push(
        match device.parent {
            Some(parent) => Cell::U16(parent),
            None => Cell::Absent,
        },
    );
    out.push(Cell::Absent);
    out.push(Cell::Absent);
    out.push(Cell::Absent);
    out.push(Cell::Absent);
    out.push(Cell::U32(held.since));
    out.push(Cell::Absent);
    proof {
        assert(out@ =~= device_cells(*held));
    }
    out
}

fn component_values(held: &HeldComponent) -> (r: Vec<Cell>)
    ensures
        r@ == component_cells(*held),
{
    let component = &held.component;
    let mut out: Vec<Cell> = Vec::new();
    out.push(Cell::U16(component.comp.get()));
    out.push(Cell::U16(component.dev));
    out.push(
        match component.parent {
            Some(parent) => Cell::U16(parent.get()),
            None => Cell::Absent,
        },
    );
    out.push(Cell::U16(component.role.0));
    out.push(
        match component.index {
            Some(index) => Cell::U16(index),
            None => Cell::Absent,
        },
    );
    out.push(Cell::Absent);
    out.push(Cell::Absent);
    out.push(Cell::Absent);
    out.push(Cell::U32(held.since));
    proof {
        assert(out@ =~= component_cells(*held));
    }
    out
}

fn signal_values(signal: &SiteSignal) -> (r: Vec<Cell>)
    ensures
        r@ == signal_cells(*signal),
{
    let mut out: Vec<Cell> = Vec::new();
    out.push(Cell::U16(signal.sig.get()));
    out.push(Cell::U16(signal.dev));
    out.push(
        Cell::U16(
            match signal.comp {
                Some(comp) => comp.get(),
                None => 0,
            },
        ),
    );
    out.push(Cell::U16(signal.kind.0));
    out.push(Cell::U8(1));
    out.push(Cell::U8(signal.vtype.number()));
    out.push(Cell::U8(signal.domain.number()));
    out.push(
        match signal.point {
            Some(point) => Cell::U16(point.0),
            None => Cell::Absent,
        },
    );
    out.push(
        match signal.dir {
            Some(dir) => Cell::U8(dir.number()),
            None => Cell::Absent,
        },
    );
    out.push(Cell::Absent);
    out.push(Cell::Absent);
    out.push(Cell::Absent);
    out.push(
        match signal.esp {
            Some(esp) => Cell::U16(esp.0),
            None => Cell::Absent,
        },
    );
    out.push(Cell::Absent);
    out.push(Cell::Absent);
    out.push(Cell::Absent);
    out.push(Cell::Absent);
    out.push(Cell::Absent);
    proof {
        assert(out@ =~= signal_cells(*signal));
    }
    out
}

/// Whether two signals are the same reading.
fn same_identity(a: &SiteSignal, b: &SiteSignal) -> (r: bool)
    ensures
        r == same_identity_spec(*a, *b),
{
    a.dev == b.dev && a.comp == b.comp && a.kind == b.kind && a.vtype == b.vtype && a.domain
        == b.domain && a.point == b.point && a.dir == b.dir
}

/// What the controller reports of its tables to a client: the caps they
/// enforce, the revision and the digest of the rows as they stand.
#[derive(Debug, Clone, Copy, PartialEq, Eq)]
pub struct Reported {
    /// The revision.
    pub rev: u32,
    /// The digest.
    pub digest: [u8; 8],
    /// Buses held.
    pub buses: u16,
    /// Devices held.
    pub devices: u16,
    /// Components held.
    pub components: u16,
    /// Signals held.
    pub signals: u16,
    /// Elements of a series.
    pub series_elements: u16,
    /// Parameters held.
    pub params: u16,
    /// Concerns held.
    pub concerns: u16,
    /// Selectors a request may carry.
    pub selectors: u16,
    /// Signals with a history.
    pub history_signals: u16,
    /// The deepest a chain of parents goes.
    pub topology_depth: u16,
}

/// Concerns the controller holds.
pub const CONCERN_ROWS: usize = 48;

/// Selectors a request may carry.
pub const MAX_SELECTORS: usize = 12;

/// What the controller reports of these tables.
pub fn reported(rev: u32, digest: [u8; 8]) -> (r: Reported)
    ensures
        r == (Reported {
            rev,
            digest,
            buses: SITE_BUSES as u16,
            devices: SITE_DEVICES as u16,
            components: SITE_COMPONENTS as u16,
            signals: SITE_SIGNALS as u16,
            series_elements: 0,
            params: 0,
            concerns: CONCERN_ROWS as u16,
            selectors: MAX_SELECTORS as u16,
            history_signals: 0,
            topology_depth: MAX_TOPOLOGY_DEPTH as u16,
        }),
{
    Reported {
        rev,
        digest,
        buses: SITE_BUSES as u16,
        devices: SITE_DEVICES as u16,
        components: SITE_COMPONENTS as u16,
        signals: SITE_SIGNALS as u16,
        series_elements: 0,
        params: 0,
        concerns: CONCERN_ROWS as u16,
        selectors: MAX_SELECTORS as u16,
        history_signals: 0,
        topology_depth: MAX_TOPOLOGY_DEPTH as u16,
    }
}

/// The descriptor tables, their revision and their digest.
#[derive(Debug, Clone)]
pub struct Topology {
    rev: u32,
    digest: [u8; 8],
    buses: Vec<SiteBus>,
    devices: Vec<HeldDevice>,
    components: Vec<HeldComponent>,
    signals: Vec<SiteSignal>,
}

impl View for Topology {
    type V = Tables;

    closed spec fn view(&self) -> Tables {
        Tables {
            rev: self.rev,
            digest: self.digest@,
            buses: self.buses@,
            devices: self.devices@,
            components: self.components@,
            signals: self.signals@,
        }
    }
}

impl Default for Topology {
    fn default() -> (r: Self)
        ensures
            r@ == no_tables(),
    {
        Topology::new()
    }
}

/// No rows, at revision zero.
pub open spec fn no_tables() -> Tables {
    Tables {
        rev: 0,
        digest: seq![0, 0, 0, 0, 0, 0, 0, 0],
        buses: Seq::empty(),
        devices: Seq::empty(),
        components: Seq::empty(),
        signals: Seq::empty(),
    }
}

/// What a move to revision `rev` owes.
pub open spec fn changed_by(
    taken: Tables,
    reason: TopologyChangeReason,
    rev: u32,
    batch: nat,
) -> TopologyChanged {
    TopologyChanged {
        rev,
        reason,
        added: if reason is Boot {
            row_count(taken) as u16
        } else if batch <= u16::MAX {
            batch as u16
        } else {
            u16::MAX
        },
        removed: 0,
    }
}

/// How many rows a page takes before it is full.
spec fn fit_count(rows: Seq<Listed>, kind: RowKind, page: Paged) -> nat
    decreases rows.len(),
{
    if rows.len() == 0 || !room_for(page, image_of(rows[0], kind)) {
        0
    } else {
        1 + fit_count(
            rows.skip(1),
            kind,
            Paged { rows: page.rows.push(image_of(rows[0], kind)), next: page.next },
        )
    }
}

/// Filling from `from` skips the rows below it.
proof fn lemma_skips_to(rows: Seq<Listed>, kind: RowKind, from: u16, at: int, page: Paged)
    requires
        0 <= at <= rows.len(),
        forall|i: int| 0 <= i < at ==> (#[trigger] rows[i]).id < from,
    ensures
        filled(rows, kind, from, page) == filled(rows.skip(at), kind, from, page),
    decreases at,
{
    if at > 0 {
        assert(rows[0].id < from);
        assert forall|i: int| 0 <= i < at - 1 implies (#[trigger] rows.skip(1)[i]).id < from by {
            assert(rows[i + 1].id < from);
        }
        lemma_skips_to(rows.skip(1), kind, from, at - 1, page);
        assert(rows.skip(1).skip(at - 1) =~= rows.skip(at));
    } else {
        assert(rows.skip(0) =~= rows);
    }
}

/// A page takes a run of rows from the front and stops at the next: what it
/// holds and what is left make what there was.
proof fn lemma_page_takes(rows: Seq<Listed>, kind: RowKind, from: u16, page: Paged)
    requires
        forall|i: int| 0 <= i < rows.len() ==> (#[trigger] rows[i]).id >= from,
    ensures
        ({
            let n = fit_count(rows, kind, page) as int;
            let got = filled(rows, kind, from, page);
            &&& 0 <= n <= rows.len()
            &&& flat(got.rows) + sent(rows.skip(n), kind) =~= flat(page.rows) + sent(rows, kind)
            &&& got.next == (if n < rows.len() {
                rows[n].id
            } else {
                page.next
            })
        }),
    decreases rows.len(),
{
    if rows.len() == 0 {
        assert(rows.skip(0) =~= rows);
    } else {
        assert(rows[0].id >= from);
        let bytes = image_of(rows[0], kind);
        if room_for(page, bytes) {
            let more = Paged { rows: page.rows.push(bytes), next: page.next };
            assert(more.rows.drop_last() =~= page.rows);
            assert(flat(more.rows) == flat(page.rows) + bytes);
            assert forall|i: int| 0 <= i < rows.skip(1).len() implies (#[trigger] rows.skip(
                1,
            )[i]).id >= from by {
                assert(rows[i + 1].id >= from);
            }
            lemma_page_takes(rows.skip(1), kind, from, more);
            let n = fit_count(rows.skip(1), kind, more) as int;
            assert(rows.skip(1).skip(n) =~= rows.skip(n + 1));
            if n < rows.skip(1).len() {
                assert(rows.skip(1)[n] == rows[n + 1]);
            }
            assert(flat(page.rows) + bytes + sent(rows.skip(1), kind) =~= flat(page.rows) + (bytes
                + sent(rows.skip(1), kind)));
        } else {
            assert(rows.skip(0) =~= rows);
        }
    }
}

/// The rows of a kind go out, and stand in id order.
proof fn lemma_listing(tables: Tables, kind: RowKind)
    requires
        tables.wf(),
    ensures
        listing(tables, kind).len() <= SITE_SIGNALS,
        forall|i: int|
            0 <= i < listing(tables, kind).len() ==> sendable(
                #[trigger] listing(tables, kind)[i],
                kind,
            ),
        forall|i: int, j: int|
            0 <= i < j < listing(tables, kind).len() ==> listing(tables, kind)[i].id < listing(
                tables,
                kind,
            )[j].id,
{
    let rows = listing(tables, kind);
    assert forall|i: int, j: int| 0 <= i < j < rows.len() implies rows[i].id < rows[j].id by {
        match kind {
            RowKind::Bus => {
                let ids = bus_ids(tables.buses);
                assert(ids[i] < ids[j]);
            },
            RowKind::Device => {
                let ids = device_ids(tables.devices);
                assert(ids[i] < ids[j]);
            },
            RowKind::Component => {
                let ids = component_ids(tables.components);
                assert(ids[i] < ids[j]);
            },
            RowKind::Signal => {
                let ids = signal_ids(tables.signals);
                assert(ids[i] < ids[j]);
            },
            RowKind::Param => {},
        }
    }
}

/// A page resumes where the last one stopped: the page of a kind from its
/// `at`-th row takes at least one row when there is one, holds the rows from
/// there on in order, and stops at the first it does not hold, or at zero when
/// it holds them all. So following the cursor from zero reads every row once.
pub proof fn law_a_page_resumes_where_the_last_stopped(tables: Tables, kind: RowKind, at: int)
    requires
        tables.wf(),
        0 <= at < listing(tables, kind).len() || at == 0,
    ensures
        ({
            let rows = listing(tables, kind);
            let from: u16 = if at == 0 {
                0
            } else {
                rows[at].id
            };
            let page = page_from(tables, kind, from);
            exists|n: int|
                {
                    &&& at <= n <= rows.len()
                    &&& at < rows.len() ==> at < n
                    &&& flat(page.rows) + sent(#[trigger] rows.skip(n), kind) == sent(
                        rows.skip(at),
                        kind,
                    )
                    &&& page.next == (if n < rows.len() {
                        rows[n].id
                    } else {
                        0
                    })
                }
        }),
{
    let rows = listing(tables, kind);
    let from: u16 = if at == 0 {
        0
    } else {
        rows[at].id
    };
    let empty = Paged { rows: Seq::empty(), next: 0 };
    lemma_listing(tables, kind);
    lemma_skips_to(rows, kind, from, at, empty);
    lemma_page_takes(rows.skip(at), kind, from, empty);
    let n = fit_count(rows.skip(at), kind, empty) as int;
    assert(rows.skip(at).skip(n) =~= rows.skip(at + n));
    assert(flat(empty.rows) =~= Seq::<u8>::empty());
    if at < rows.len() {
        assert(sendable(rows[at], kind));
        assert(rows.skip(at)[0] == rows[at]);
        assert(n > 0);
        if at + n < rows.len() {
            assert(rows.skip(at)[n] == rows[at + n]);
        }
    }
    let page = page_from(tables, kind, from);
    assert(flat(page.rows) + sent(rows.skip(at + n), kind) == sent(rows.skip(at), kind));
}

impl Topology {
    /// Whether the tables hold what they may.
    pub open spec fn wf(&self) -> bool {
        self@.wf()
    }

    /// No rows, at revision 0: the revision a client sends when it holds
    /// nothing, so a first request is never mistaken for a current one.
    pub fn new() -> (r: Self)
        ensures
            r@ == no_tables(),
            r.wf(),
    {
        let made = Topology {
            rev: 0,
            digest: [0; 8],
            buses: Vec::new(),
            devices: Vec::new(),
            components: Vec::new(),
            signals: Vec::new(),
        };
        proof {
            assert(made@ =~= no_tables());
            assert(made@.digest =~= no_tables().digest);
            assert forall|kind: RowKind, i: int|
                0 <= i < listing(made@, kind).len() implies sendable(
                #[trigger] listing(made@, kind)[i],
                kind,
            ) by {
                assert(listing(made@, kind).len() == 0);
            }
        }
        made
    }

    /// The revision the rows stand at.
    pub fn rev(&self) -> (r: u32)
        ensures
            r == self@.rev,
    {
        self.rev
    }

    /// The digest of the rows as they stand.
    pub fn digest(&self) -> (r: [u8; 8])
        ensures
            r@ == self@.digest,
    {
        self.digest
    }

    /// The signals in ascending order.
    pub fn signals(&self) -> (r: &[SiteSignal])
        ensures
            r@ == self@.signals,
    {
        self.signals.as_slice()
    }

    fn bus(&self, id: u8) -> (r: Option<SiteBus>)
        ensures
            r == find_bus(self@.buses, id),
    {
        let mut i: usize = 0;
        proof {
            assert(self@.buses.skip(0) =~= self@.buses);
        }
        while i < self.buses.len()
            invariant
                i <= self@.buses.len(),
                find_bus(self@.buses, id) == find_bus(self@.buses.skip(i as int), id),
            decreases self@.buses.len() - i,
        {
            if self.buses[i].bus == id {
                return Some(self.buses[i]);
            }
            proof {
                assert(self@.buses.skip(i as int).skip(1) =~= self@.buses.skip(i + 1));
            }
            i = i + 1;
        }
        None
    }

    fn device(&self, dev: u16) -> (r: Option<HeldDevice>)
        ensures
            r == find_device(self@.devices, dev),
    {
        let mut i: usize = 0;
        proof {
            assert(self@.devices.skip(0) =~= self@.devices);
        }
        while i < self.devices.len()
            invariant
                i <= self@.devices.len(),
                find_device(self@.devices, dev) == find_device(
                    self@.devices.skip(i as int),
                    dev,
                ),
            decreases self@.devices.len() - i,
        {
            if self.devices[i].device.dev == dev {
                return Some(self.devices[i]);
            }
            proof {
                assert(self@.devices.skip(i as int).skip(1) =~= self@.devices.skip(i + 1));
            }
            i = i + 1;
        }
        None
    }

    fn component(&self, comp: Id) -> (r: Option<HeldComponent>)
        ensures
            r == find_component(self@.components, comp),
    {
        let mut i: usize = 0;
        proof {
            assert(self@.components.skip(0) =~= self@.components);
        }
        while i < self.components.len()
            invariant
                i <= self@.components.len(),
                find_component(self@.components, comp) == find_component(
                    self@.components.skip(i as int),
                    comp,
                ),
            decreases self@.components.len() - i,
        {
            if self.components[i].component.comp == comp {
                return Some(self.components[i]);
            }
            proof {
                assert(self@.components.skip(i as int).skip(1) =~= self@.components.skip(i + 1));
            }
            i = i + 1;
        }
        None
    }

    fn signal(&self, sig: Id) -> (r: Option<SiteSignal>)
        ensures
            r == find_signal(self@.signals, sig),
    {
        let mut i: usize = 0;
        proof {
            assert(self@.signals.skip(0) =~= self@.signals);
        }
        while i < self.signals.len()
            invariant
                i <= self@.signals.len(),
                find_signal(self@.signals, sig) == find_signal(self@.signals.skip(i as int), sig),
            decreases self@.signals.len() - i,
        {
            if self.signals[i].sig == sig {
                return Some(self.signals[i]);
            }
            proof {
                assert(self@.signals.skip(i as int).skip(1) =~= self@.signals.skip(i + 1));
            }
            i = i + 1;
        }
        None
    }

    /// Whether the table holds `sig`.
    pub fn has_signal(&self, sig: Id) -> (r: bool)
        ensures
            r == (find_signal(self@.signals, sig) is Some),
    {
        self.signal(sig).is_some()
    }

    /// Whether the table holds device `dev`.
    pub fn has_device(&self, dev: u16) -> (r: bool)
        ensures
            r == (find_device(self@.devices, dev) is Some),
    {
        self.device(dev).is_some()
    }

    /// Whether `sel` names something at this revision.
    pub fn knows(&self, sel: Sel) -> (r: bool)
        ensures
            r == known(self@, sel),
    {
        match sel {
            Sel::Dev(dev) => self.has_device(dev.get()),
            Sel::Comp(comp) => self.component(comp).is_some(),
            Sel::Sig(sig) => self.has_signal(sig),
        }
    }

    /// Whether `sel` selects `signal`: the signal itself, a component whose
    /// chain of parents reaches the one named, or a device whose chain does.
    pub fn selects(&self, sel: Sel, signal: &SiteSignal) -> (r: bool)
        ensures
            r == selected_by(self@, sel, *signal),
    {
        match sel {
            Sel::Sig(sig) => sig == signal.sig,
            Sel::Comp(comp) => {
                let mut at = signal.comp;
                let mut hops: usize = MAX_TOPOLOGY_DEPTH + 1;
                while hops > 0
                    invariant
                        hops <= MAX_TOPOLOGY_DEPTH + 1,
                        sel == Sel::Comp(comp),
                        component_reaches(
                            self@.components,
                            signal.comp,
                            comp,
                            (MAX_TOPOLOGY_DEPTH + 1) as nat,
                        ) == component_reaches(self@.components, at, comp, hops as nat),
                    decreases hops,
                {
                    let here = match at {
                        Some(here) => here,
                        None => return false,
                    };
                    if here == comp {
                        return true;
                    }
                    at = match self.component(here) {
                        Some(held) => held.component.parent,
                        None => None,
                    };
                    hops = hops - 1;
                }
                false
            },
            Sel::Dev(dev) => {
                let mut at = Some(signal.dev);
                let mut hops: usize = MAX_TOPOLOGY_DEPTH + 1;
                while hops > 0
                    invariant
                        hops <= MAX_TOPOLOGY_DEPTH + 1,
                        sel == Sel::Dev(dev),
                        device_reaches(
                            self@.devices,
                            Some(signal.dev),
                            dev@,
                            (MAX_TOPOLOGY_DEPTH + 1) as nat,
                        ) == device_reaches(self@.devices, at, dev@, hops as nat),
                    decreases hops,
                {
                    let here: u16 = match at {
                        Some(here) => here,
                        None => return false,
                    };
                    if here == dev.get() {
                        return true;
                    }
                    at = match self.device(here) {
                        Some(held) => held.device.parent,
                        None => None,
                    };
                    hops = hops - 1;
                }
                false
            },
        }
    }

    fn add_bus(&mut self, bus: SiteBus) -> (r: Result<(), TopologyError>)
        requires
            old(self).wf(),
        ensures
            match take_bus(old(self)@, bus) {
                Taking::Refused(why) => r == Err::<(), TopologyError>(why) && final(self)@ == old(
                    self,
                )@,
                Taking::BadRow => r matches Err(TopologyError::Row(_)) && final(self)@ == old(
                    self,
                )@,
                Taking::Taken(tables) => r is Ok && final(self)@ == tables && tables.wf(),
            },
    {
        if self.bus(bus.bus).is_some() {
            return Err(TopologyError::Duplicate(RowKind::Bus, bus.bus as u16));
        }
        let values = bus_values(&bus);
        if let Err(why) = check_row(RowKind::Bus, values.as_slice()) {
            return Err(TopologyError::Row(why));
        }
        let above = |held: &SiteBus| -> (r: bool)
            ensures
                r == (held.bus > bus.bus),
            { held.bus > bus.bus };
        match insert(&mut self.buses, SITE_BUSES, bus, above) {
            Some(()) => {
                proof {
                    let ids = bus_ids(old(self)@.buses);
                    let at = choose|at: int|
                        #![trigger old(self).buses@.insert(at, bus)]
                        {
                            &&& 0 <= at <= old(self).buses@.len()
                            &&& forall|i: int|
                                0 <= i < at ==> call_ensures(
                                    above,
                                    (&old(self).buses@[i],),
                                    false,
                                )
                            &&& at < old(self).buses@.len() ==> call_ensures(
                                above,
                                (&old(self).buses@[at],),
                                true,
                            )
                            &&& self.buses@ == old(self).buses@.insert(at, bus)
                        };
                    lemma_place(ids, bus.bus as int, at);
                    lemma_bus_taken(old(self)@, bus);
                }
                Ok(())
            },
            None => Err(TopologyError::Full(RowKind::Bus)),
        }
    }

    /// Whether another device on the same bus holds the same address.
    fn clashes(&self, device: &SiteDevice) -> (r: bool)
        ensures
            r == address_clash(self@.devices, *device),
    {
        let addr = match device.addr {
            Some(addr) => addr,
            None => return false,
        };
        let mut i: usize = 0;
        while i < self.devices.len()
            invariant
                i <= self@.devices.len(),
                device.addr == Some(addr),
                forall|j: int|
                    0 <= j < i ==> !((#[trigger] self@.devices[j]).device.bus == device.bus
                        && self@.devices[j].device.addr is Some
                        && self@.devices[j].device.addr->0@ == addr@),
            decreases self@.devices.len() - i,
        {
            if self.devices[i].device.bus == device.bus {
                if let Some(other) = self.devices[i].device.addr {
                    if crate::bytes::same(other.as_bytes(), addr.as_bytes()) {
                        proof {
                            assert(self@.devices[i as int].device.addr->0@ == addr@);
                        }
                        return true;
                    }
                }
            }
            i = i + 1;
        }
        false
    }

    /// Why the chain of parents from `parent` is refused for device `dev`.
    fn device_chain(&self, parent: Option<u16>, dev: u16) -> (r: Option<TopologyError>)
        ensures
            r == device_chain(self@.devices, parent, (MAX_TOPOLOGY_DEPTH - 1) as nat, dev),
    {
        // The parent is held already, so the chain is acyclic by
        // construction; its depth is what is left to check.
        let mut left: usize = MAX_TOPOLOGY_DEPTH - 1;
        let mut at = parent;
        loop
            invariant
                left <= MAX_TOPOLOGY_DEPTH - 1,
                device_chain(self@.devices, parent, (MAX_TOPOLOGY_DEPTH - 1) as nat, dev)
                    == device_chain(self@.devices, at, left as nat, dev),
            decreases left,
        {
            let here: u16 = match at {
                Some(here) => here,
                None => return None,
            };
            let held = match self.device(here) {
                Some(held) => held,
                None => return Some(TopologyError::NoSuchDevice(here)),
            };
            if left == 0 {
                return Some(TopologyError::TooDeep(dev));
            }
            at = held.device.parent;
            left = left - 1;
        }
    }

    /// Why the chain of parents from `parent` is refused for component `comp`
    /// of device `dev`.
    fn component_chain(&self, parent: Option<Id>, dev: u16, comp: Id) -> (r: Option<
        TopologyError,
    >)
        ensures
            r == component_chain(
                self@.components,
                parent,
                (MAX_TOPOLOGY_DEPTH - 1) as nat,
                dev,
                comp,
            ),
    {
        // The parent is held already and on the same device, so the chain is
        // acyclic by construction and never leaves the device.
        let mut left: usize = MAX_TOPOLOGY_DEPTH - 1;
        let mut at = parent;
        loop
            invariant
                left <= MAX_TOPOLOGY_DEPTH - 1,
                component_chain(
                    self@.components,
                    parent,
                    (MAX_TOPOLOGY_DEPTH - 1) as nat,
                    dev,
                    comp,
                ) == component_chain(self@.components, at, left as nat, dev, comp),
            decreases left,
        {
            let here = match at {
                Some(here) => here,
                None => return None,
            };
            let held = match self.component(here) {
                Some(held) => held,
                None => return Some(TopologyError::NoSuchComponent(here.get())),
            };
            if held.component.dev != dev {
                return Some(TopologyError::NoSuchComponent(here.get()));
            }
            if left == 0 {
                return Some(TopologyError::TooDeep(comp.get()));
            }
            at = held.component.parent;
            left = left - 1;
        }
    }

    fn add_device(&mut self, device: SiteDevice, rev: u32) -> (r: Result<(), TopologyError>)
        requires
            old(self).wf(),
        ensures
            match take_device(old(self)@, device, rev) {
                Taking::Refused(why) => r == Err::<(), TopologyError>(why) && final(self)@ == old(
                    self,
                )@,
                Taking::BadRow => r matches Err(TopologyError::Row(_)) && final(self)@ == old(
                    self,
                )@,
                Taking::Taken(tables) => r is Ok && final(self)@ == tables && tables.wf(),
            },
    {
        if self.has_device(device.dev) {
            return Err(TopologyError::Duplicate(RowKind::Device, device.dev));
        }
        let bus = match self.bus(device.bus) {
            Some(bus) => bus,
            None => return Err(TopologyError::NoSuchBus(device.bus)),
        };
        let addressed = match bus.transport {
            crate::site_rows::Transport::Rs485 => true,
            crate::site_rows::Transport::Can => true,
            crate::site_rows::Transport::Ip => true,
            _ => false,
        };
        if (addressed && device.addr.is_none()) || self.clashes(&device) {
            return Err(TopologyError::Address(device.dev));
        }
        if let Some(why) = self.device_chain(device.parent, device.dev) {
            return Err(why);
        }
        let held = HeldDevice { device, since: rev };
        let values = device_values(&held);
        if let Err(why) = check_row(RowKind::Device, values.as_slice()) {
            return Err(TopologyError::Row(why));
        }
        let above = |other: &HeldDevice| -> (r: bool)
            ensures
                r == (other.device.dev > device.dev),
            { other.device.dev > device.dev };
        match insert(&mut self.devices, SITE_DEVICES, held, above) {
            Some(()) => {
                proof {
                    let ids = device_ids(old(self)@.devices);
                    let at = choose|at: int|
                        #![trigger old(self).devices@.insert(at, held)]
                        {
                            &&& 0 <= at <= old(self).devices@.len()
                            &&& forall|i: int|
                                0 <= i < at ==> call_ensures(
                                    above,
                                    (&old(self).devices@[i],),
                                    false,
                                )
                            &&& at < old(self).devices@.len() ==> call_ensures(
                                above,
                                (&old(self).devices@[at],),
                                true,
                            )
                            &&& self.devices@ == old(self).devices@.insert(at, held)
                        };
                    lemma_place(ids, device.dev as int, at);
                    lemma_device_taken(old(self)@, device, rev);
                }
                Ok(())
            },
            None => Err(TopologyError::Full(RowKind::Device)),
        }
    }

    fn add_component(&mut self, component: SiteComponent, rev: u32) -> (r: Result<
        (),
        TopologyError,
    >)
        requires
            old(self).wf(),
        ensures
            match take_component(old(self)@, component, rev) {
                Taking::Refused(why) => r == Err::<(), TopologyError>(why) && final(self)@ == old(
                    self,
                )@,
                Taking::BadRow => r matches Err(TopologyError::Row(_)) && final(self)@ == old(
                    self,
                )@,
                Taking::Taken(tables) => r is Ok && final(self)@ == tables && tables.wf(),
            },
    {
        let comp = component.comp;
        if self.component(comp).is_some() {
            return Err(TopologyError::Duplicate(RowKind::Component, comp.get()));
        }
        if !self.has_device(component.dev) {
            return Err(TopologyError::NoSuchDevice(component.dev));
        }
        if let Some(why) = self.component_chain(component.parent, component.dev, comp) {
            return Err(why);
        }
        let held = HeldComponent { component, since: rev };
        let values = component_values(&held);
        if let Err(why) = check_row(RowKind::Component, values.as_slice()) {
            return Err(TopologyError::Row(why));
        }
        let id: u16 = comp.get();
        let above = |other: &HeldComponent| -> (r: bool)
            ensures
                r == (other.component.comp@ > id),
            { other.component.comp.get() > id };
        match insert(&mut self.components, SITE_COMPONENTS, held, above) {
            Some(()) => {
                proof {
                    let ids = component_ids(old(self)@.components);
                    lemma_component_taken(old(self)@, component, rev);
                    let at = choose|at: int|
                        #![trigger old(self).components@.insert(at, held)]
                        {
                            &&& 0 <= at <= old(self).components@.len()
                            &&& forall|i: int|
                                0 <= i < at ==> call_ensures(
                                    above,
                                    (&old(self).components@[i],),
                                    false,
                                )
                            &&& at < old(self).components@.len() ==> call_ensures(
                                above,
                                (&old(self).components@[at],),
                                true,
                            )
                            &&& self.components@ == old(self).components@.insert(at, held)
                        };
                    lemma_place(ids, id as int, at);
                }
                Ok(())
            },
            None => Err(TopologyError::Full(RowKind::Component)),
        }
    }

    /// Whether another signal is the same reading.
    fn collides(&self, signal: &SiteSignal) -> (r: bool)
        ensures
            r == (exists|i: int|
                0 <= i < self@.signals.len() && same_identity_spec(
                    #[trigger] self@.signals[i],
                    *signal,
                )),
    {
        let mut i: usize = 0;
        while i < self.signals.len()
            invariant
                i <= self@.signals.len(),
                forall|j: int|
                    0 <= j < i ==> !same_identity_spec(#[trigger] self@.signals[j], *signal),
            decreases self@.signals.len() - i,
        {
            if same_identity(&self.signals[i], signal) {
                proof {
                    assert(same_identity_spec(self@.signals[i as int], *signal));
                }
                return true;
            }
            i = i + 1;
        }
        false
    }

    fn add_signal(&mut self, signal: SiteSignal) -> (r: Result<(), TopologyError>)
        requires
            old(self).wf(),
        ensures
            match take_signal(old(self)@, signal) {
                Taking::Refused(why) => r == Err::<(), TopologyError>(why) && final(self)@ == old(
                    self,
                )@,
                Taking::BadRow => r matches Err(TopologyError::Row(_)) && final(self)@ == old(
                    self,
                )@,
                Taking::Taken(tables) => r is Ok && final(self)@ == tables && tables.wf(),
            },
    {
        if self.has_signal(signal.sig) {
            return Err(TopologyError::Duplicate(RowKind::Signal, signal.sig.get()));
        }
        if !self.has_device(signal.dev) {
            return Err(TopologyError::NoSuchDevice(signal.dev));
        }
        if let Some(comp) = signal.comp {
            let at_device = match self.component(comp) {
                Some(held) => held.component.dev == signal.dev,
                None => false,
            };
            if !at_device {
                return Err(TopologyError::NoSuchComponent(comp.get()));
            }
        }
        if signal.kind.0 >= VENDOR_KINDS {
            return Err(TopologyError::VendorKind(signal.sig));
        }
        if self.collides(&signal) {
            return Err(TopologyError::Collides(signal.sig));
        }
        let values = signal_values(&signal);
        if let Err(why) = check_row(RowKind::Signal, values.as_slice()) {
            return Err(TopologyError::Row(why));
        }
        let id: u16 = signal.sig.get();
        let above = |held: &SiteSignal| -> (r: bool)
            ensures
                r == (held.sig@ > id),
            { held.sig.get() > id };
        match insert(&mut self.signals, SITE_SIGNALS, signal, above) {
            Some(()) => {
                proof {
                    let ids = signal_ids(old(self)@.signals);
                    lemma_signal_taken(old(self)@, signal);
                    let at = choose|at: int|
                        #![trigger old(self).signals@.insert(at, signal)]
                        {
                            &&& 0 <= at <= old(self).signals@.len()
                            &&& forall|i: int|
                                0 <= i < at ==> call_ensures(
                                    above,
                                    (&old(self).signals@[i],),
                                    false,
                                )
                            &&& at < old(self).signals@.len() ==> call_ensures(
                                above,
                                (&old(self).signals@[at],),
                                true,
                            )
                            &&& self.signals@ == old(self).signals@.insert(at, signal)
                        };
                    lemma_place(ids, id as int, at);
                }
                Ok(())
            },
            None => Err(TopologyError::Full(RowKind::Signal)),
        }
    }

    /// Rows of one kind.
    pub fn count(&self, kind: RowKind) -> (r: u16)
        requires
            self.wf(),
        ensures
            r == listing(self@, kind).len(),
    {
        match kind {
            RowKind::Bus => self.buses.len() as u16,
            RowKind::Device => self.devices.len() as u16,
            RowKind::Component => self.components.len() as u16,
            RowKind::Signal => self.signals.len() as u16,
            RowKind::Param => 0,
        }
    }

    /// Rows of every kind.
    fn rows(&self) -> (r: u16)
        requires
            self.wf(),
        ensures
            r == row_count(self@),
    {
        self.count(RowKind::Bus) + self.count(RowKind::Device) + self.count(RowKind::Component)
            + self.count(RowKind::Signal)
    }

    /// The `i`-th row of a kind: its id and its values.
    fn row_at(&self, kind: RowKind, i: usize) -> (r: (u16, Vec<Cell>))
        requires
            i < listing(self@, kind).len(),
        ensures
            r.0 == listing(self@, kind)[i as int].id,
            r.1@ == listing(self@, kind)[i as int].cells,
            r.1@.len() <= ROW_CELLS,
    {
        match kind {
            RowKind::Bus => (self.buses[i].bus as u16, bus_values(&self.buses[i])),
            RowKind::Device => (self.devices[i].device.dev, device_values(&self.devices[i])),
            RowKind::Component => (
                self.components[i].component.comp.get(),
                component_values(&self.components[i]),
            ),
            RowKind::Signal => (self.signals[i].sig.get(), signal_values(&self.signals[i])),
            RowKind::Param => (0, Vec::new()),
        }
    }

    /// The largest id of `kind`, if the table holds any.
    fn last(&self, kind: RowKind) -> (r: Option<u16>)
        requires
            self.wf(),
        ensures
            r == (if listing(self@, kind).len() > 0 {
                Some(listing(self@, kind).last().id)
            } else {
                None
            }),
    {
        let count: u16 = self.count(kind);
        if count == 0 {
            return None;
        }
        Some(self.row_at(kind, count as usize - 1).0)
    }

    /// Push every row of the page's kind from `from` on, until the page is
    /// full; the page keeps the id it stopped at.
    fn fill(&self, page: &mut km43::Page, kind: RowKind, from: u16) -> (r: Result<
        (),
        km43::InventoryError,
    >)
        requires
            self.wf(),
            page_marks(*old(page)).0 == kind.spec_number(),
        ensures
            r is Ok,
            page_marks(*final(page)).0 == kind.spec_number(),
            filled(
                listing(self@, kind),
                kind,
                from,
                Paged { rows: page_rows(*old(page)), next: page_marks(*old(page)).1 },
            ) == (Paged { rows: page_rows(*final(page)), next: page_marks(*final(page)).1 }),
    {
        let ghost rows = listing(self@, kind);
        let ghost whole = filled(
            rows,
            kind,
            from,
            Paged { rows: page_rows(*page), next: page_marks(*page).1 },
        );
        let count: usize = self.count(kind) as usize;
        let mut i: usize = 0;
        proof {
            assert(rows.skip(0) =~= rows);
        }
        while i < count
            invariant
                self.wf(),
                rows == listing(self@, kind),
                i <= count == rows.len(),
                page_marks(*page).0 == kind.spec_number(),
                whole == filled(
                    rows.skip(i as int),
                    kind,
                    from,
                    Paged { rows: page_rows(*page), next: page_marks(*page).1 },
                ),
                whole == filled(
                    listing(self@, kind),
                    kind,
                    from,
                    Paged { rows: page_rows(*old(page)), next: page_marks(*old(page)).1 },
                ),
            decreases count - i,
        {
            let (id, cells) = self.row_at(kind, i);
            proof {
                assert(sendable(rows[i as int], kind));
                assert(rows.skip(i as int)[0] == rows[i as int]);
                assert(rows.skip(i as int).skip(1) =~= rows.skip(i + 1));
            }
            if id >= from {
                let taken = push_row(page, cells.as_slice(), id)?;
                if !taken {
                    return Ok(());
                }
            }
            i = i + 1;
        }
        Ok(())
    }

    /// The digest over every row in canonical order, each page's bytes exactly
    /// as a page carries them.
    fn digested(&self) -> (r: Result<[u8; 8], km43::InventoryError>)
        requires
            self.wf(),
        ensures
            r matches Ok(digest) && digest@ == topo_digest(self@.rev, all_sent(self@)),
    {
        let mut digest = new_digest(self.rev);
        self.digest_kind(&mut digest, RowKind::Bus)?;
        self.digest_kind(&mut digest, RowKind::Device)?;
        self.digest_kind(&mut digest, RowKind::Component)?;
        self.digest_kind(&mut digest, RowKind::Signal)?;
        proof {
            assert(absorbed(digest) =~= all_sent(self@));
        }
        Ok(finish_digest(digest))
    }

    /// Absorb every row of one kind, page by page.
    fn digest_kind(&self, digest: &mut km43::TopoDigest, kind: RowKind) -> (r: Result<
        (),
        km43::InventoryError,
    >)
        requires
            self.wf(),
            !(kind is Param),
            digest_marks(*old(digest)).1 <= kind.spec_number(),
        ensures
            r is Ok,
            digest_marks(*final(digest)) == (digest_marks(*old(digest)).0, kind.spec_number()),
            absorbed(*final(digest)) == absorbed(*old(digest)) + sent(listing(self@, kind), kind),
    {
        let ghost rows = listing(self@, kind);
        let ghost all = sent(rows, kind);
        let ghost mut done: int = 0;
        let mut from: u16 = 0;
        let mut pages: usize = SITE_SIGNALS + 1;
        proof {
            lemma_listing(self@, kind);
            assert(rows.skip(0) =~= rows);
        }
        // Each page takes at least one row, so a kind is walked in at most as
        // many pages as it has rows, and one more to find it empty.
        while pages > 0
            invariant_except_break
                absorbed(*digest) + sent(rows.skip(done), kind) == absorbed(*old(digest)) + all,
                0 <= done <= rows.len(),
                rows.len() - done < pages,
                digest_marks(*digest).1 <= kind.spec_number(),
                done == 0 ==> from == 0,
                done > 0 ==> done < rows.len() && from == rows[done].id && from != 0,
            invariant
                self.wf(),
                !(kind is Param),
                rows == listing(self@, kind),
                all == sent(rows, kind),
                pages <= SITE_SIGNALS + 1,
                digest_marks(*digest).0 == digest_marks(*old(digest)).0,
            ensures
                digest_marks(*digest).1 == kind.spec_number(),
                absorbed(*digest) == absorbed(*old(digest)) + all,
            decreases pages,
        {
            let mut page = new_page(kind);
            self.fill(&mut page, kind, from)?;
            let ghost before = absorbed(*digest);
            absorb_page(digest, &page)?;
            let next: u16 = page_stopped_at(&page);
            proof {
                lemma_listing(self@, kind);
                let empty = Paged { rows: Seq::empty(), next: 0 };
                lemma_skips_to(rows, kind, from, done, empty);
                lemma_page_takes(rows.skip(done), kind, from, empty);
                let n = fit_count(rows.skip(done), kind, empty) as int;
                let got = filled(rows, kind, from, empty);
                assert(got == filled(rows.skip(done), kind, from, empty));
                assert(rows.skip(done).skip(n) =~= rows.skip(done + n));
                assert(flat(empty.rows) =~= Seq::<u8>::empty());
                assert(flat(got.rows) + sent(rows.skip(done + n), kind) =~= sent(
                    rows.skip(done),
                    kind,
                ));
                assert(absorbed(*digest) + sent(rows.skip(done + n), kind) =~= before + sent(
                    rows.skip(done),
                    kind,
                ));
                if done < rows.len() {
                    assert(n > 0) by {
                        assert(sendable(rows[done], kind));
                        assert(rows.skip(done)[0] == rows[done]);
                    }
                }
                if done + n < rows.len() {
                    assert(rows.skip(done)[n] == rows[done + n]);
                } else {
                    assert(sent(rows.skip(done + n), kind) =~= Seq::<u8>::empty());
                    assert(absorbed(*digest) =~= absorbed(*old(digest)) + all);
                }
                done = done + n;
            }
            if next == 0 {
                break ;
            }
            from = next;
            pages = pages - 1;
        }
        Ok(())
    }

    /// Take `batch` under a new revision, or refuse all of it.
    ///
    /// Every row is checked against the table as it would stand with the rows
    /// before it in the batch. The answer is what the move owes, counting the
    /// rows added; at a boot, what the tables hold.
    pub fn apply(&mut self, reason: TopologyChangeReason, batch: &[Descriptor]) -> (r: Result<
        TopologyChanged,
        TopologyError,
    >)
        requires
            old(self).wf(),
        ensures
            final(self).wf(),
            if old(self)@.rev == u32::MAX {
                &&& r == Err::<TopologyChanged, TopologyError>(TopologyError::RevisionExhausted)
                &&& final(self)@ == old(self)@
            } else {
                let rev = (old(self)@.rev + 1) as u32;
                match take_all(old(self)@, batch@, rev) {
                    Taking::Refused(why) => {
                        &&& r == Err::<TopologyChanged, TopologyError>(why)
                        &&& final(self)@ == old(self)@
                    },
                    Taking::BadRow => {
                        &&& r matches Err(TopologyError::Row(_))
                        &&& final(self)@ == old(self)@
                    },
                    Taking::Taken(taken) => {
                        &&& final(self)@ == moved(taken, rev)
                        &&& r == Ok::<TopologyChanged, TopologyError>(
                            changed_by(taken, reason, rev, batch@.len()),
                        )
                    },
                }
            },
    {
        if self.rev == u32::MAX {
            return Err(TopologyError::RevisionExhausted);
        }
        let rev: u32 = self.rev + 1;
        let mut draft = Topology {
            rev: self.rev,
            digest: self.digest,
            buses: copy_of(&self.buses),
            devices: copy_of(&self.devices),
            components: copy_of(&self.components),
            signals: copy_of(&self.signals),
        };
        let mut added: u16 = 0;
        let mut i: usize = 0;
        proof {
            assert(draft@ =~= self@);
            assert(batch@.take(0) =~= Seq::<Descriptor>::empty());
        }
        while i < batch.len()
            invariant
                *self == *old(self),
                self.wf(),
                draft.wf(),
                i <= batch@.len(),
                rev == self.rev + 1,
                take_all(self@, batch@.take(i as int), rev) == Taking::Taken(draft@),
                added == (if i <= u16::MAX {
                    i as int
                } else {
                    u16::MAX as int
                }),
            decreases batch@.len() - i,
        {
            let ghost before = draft@;
            let ghost so_far = batch@.take(i as int);
            let taken = match batch[i] {
                Descriptor::Bus(bus) => draft.add_bus(bus),
                Descriptor::Device(device) => draft.add_device(device, rev),
                Descriptor::Component(component) => draft.add_component(component, rev),
                Descriptor::Signal(signal) => draft.add_signal(signal),
            };
            proof {
                let next = batch@.take(i + 1);
                assert(next.drop_last() =~= so_far);
                assert(next.last() == batch@[i as int]);
                assert(take_all(self@, next, rev) == take_row(before, batch@[i as int], rev));
                if taken is Err {
                    lemma_refusal_stays(self@, batch@, rev, i + 1);
                }
            }
            match taken {
                Ok(()) => {},
                Err(why) => return Err(why),
            }
            added = added.saturating_add(1);
            i = i + 1;
        }
        proof {
            assert(batch@.take(i as int) =~= batch@);
        }
        let ghost taken = draft@;
        draft.rev = rev;
        proof {
            let kinds = draft@;
            assert(all_sent(kinds) == all_sent(taken));
            assert forall|kind: RowKind, i: int|
                0 <= i < listing(kinds, kind).len() implies sendable(
                #[trigger] listing(kinds, kind)[i],
                kind,
            ) by {
                assert(sendable(listing(taken, kind)[i], kind));
            }
        }
        draft.digest = match draft.digested() {
            Ok(digest) => digest,
            Err(why) => return Err(TopologyError::Row(why)),
        };
        proof {
            assert(draft@ =~= moved(taken, rev));
            let kinds = draft@;
            assert forall|kind: RowKind, i: int|
                0 <= i < listing(kinds, kind).len() implies sendable(
                #[trigger] listing(kinds, kind)[i],
                kind,
            ) by {
                assert(sendable(listing(taken, kind)[i], kind));
            }
        }
        *self = draft;
        let added: u16 = match reason {
            // A boot carries what the tables hold, not the delta.
            TopologyChangeReason::Boot => self.rows(),
            _ => added,
        };
        Ok(TopologyChanged { rev, reason, added, removed: 0 })
    }

    /// The answer to `request`, written into `dst`: a revision neither 0 nor
    /// current is superseded, a kind outside the tables unknown, and a cursor
    /// past the last row out of range. An empty kind read from the beginning
    /// is answered, with no rows.
    pub fn answer(&self, request: &ReadInventory, dst: &mut [u8]) -> (r: Result<
        usize,
        km43::InventoryError,
    >)
        requires
            self.wf(),
        ensures
            final(dst)@.len() == old(dst)@.len(),
            match answer_of(self@, *request) {
                Some(bytes) if bytes.len() <= old(dst)@.len() => {
                    &&& r matches Ok(len) && len == bytes.len()
                    &&& final(dst)@ == spliced(old(dst)@, 0, bytes)
                },
                _ => r is Err,
            },
    {
        let kind = RowKind::from_number(request.what);
        let total: u16 = match kind {
            Some(kind) => self.count(kind),
            None => 0,
        };
        if request.rev != 0 && request.rev != self.rev {
            return write_inventory(
                dst,
                self.rev,
                request.what,
                InventoryOutcome::Superseded,
                total,
                None,
                None,
            );
        }
        let kind = match kind {
            Some(kind) => kind,
            None => {
                return write_inventory(
                    dst,
                    self.rev,
                    request.what,
                    InventoryOutcome::UnknownKind,
                    total,
                    None,
                    None,
                );
            },
        };
        let past = match self.last(kind) {
            Some(last) => request.from > last,
            None => true,
        };
        if request.from != 0 && past {
            return write_inventory(
                dst,
                self.rev,
                request.what,
                InventoryOutcome::OutOfRange,
                total,
                None,
                None,
            );
        }
        let mut page = new_page(kind);
        self.fill(&mut page, kind, request.from)?;
        let digest = if page_stopped_at(&page) == 0 && request.dev.is_none() {
            Some(self.digest)
        } else {
            None
        };
        write_inventory(
            dst,
            self.rev,
            request.what,
            InventoryOutcome::Answered,
            total,
            Some(&page),
            digest,
        )
    }
}

} // verus!
