//! What the descriptor tables take and what they refuse, row by row, and what
//! a request for rows is answered.

use crate::reading::Id;
use crate::selection_laws::{
    climbs_devices, device_under,
    law_a_component_is_found_where_it_is_held, law_a_device_is_found_where_it_is_held,
    law_a_signal_is_found_where_it_is_held, lemma_device_is,
};
use crate::site_rows::{
    Cell, InventoryOutcome, ReadInventory, RowKind, SiteBus, SiteComponent, SiteDevice, SiteSignal,
    TopologyChangeReason, Transport,
};
use crate::topology::{
    answer_of, bus_cells, bus_ids, changed_by, component_cells, component_chain, component_ids,
    device_cells, device_chain, device_ids, find_bus, find_component, find_device, listing, moved,
    outcome_of, page_from, place_of, room_for, sent, signal_cells, signal_ids, take_bus, take_component,
    take_device, take_signal, HeldComponent, HeldDevice, Paged, Tables, Taking, TopologyError,
};
use crate::topology_laws::lemma_place_inside;
use crate::wire::{flat, inventory_image, row_image, sample_fits, topo_digest};
use vstd::prelude::*;

verus! {

broadcast use Id::same_number_same_id;

/// A bus is found exactly when one of that number is held, and what is found is
/// it.
pub proof fn law_a_bus_is_found_where_it_is_held(buses: Seq<SiteBus>, id: u8)
    ensures
        find_bus(buses, id) is Some <==> exists|i: int|
            0 <= i < buses.len() && (#[trigger] buses[i]).bus == id,
        find_bus(buses, id) matches Some(held) ==> held.bus == id && buses.contains(held),
    decreases buses.len(),
{
    if buses.len() > 0 {
        if buses[0].bus == id {
            assert(buses.contains(buses[0]));
        } else {
            let rest = buses.skip(1);
            law_a_bus_is_found_where_it_is_held(rest, id);
            if let Some(held) = find_bus(rest, id) {
                let i = choose|i: int| 0 <= i < rest.len() && rest[i] == held;
                assert(buses[i + 1] == held);
            }
            assert forall|i: int| 0 <= i < buses.len() && (#[trigger] buses[i]).bus == id implies
                find_bus(rest, id) is Some by {
                assert(rest[i - 1] == buses[i]);
            }
        }
    }
}

/// Whether rows are those before with one more among them.
pub open spec fn one_more<T>(before: Seq<T>, after: Seq<T>, row: T) -> bool {
    exists|at: int| 0 <= at <= before.len() && after == #[trigger] before.insert(at, row)
}

/// A bus is taken where its number is new, there is room for one of eight and
/// its row goes out; else it is refused for the first of these that fails.
pub proof fn law_a_bus_is_taken_or_refused_for_its_reason(tables: Tables, bus: SiteBus)
    ensures
        ({
            let took = take_bus(tables, bus);
            let known = exists|i: int|
                0 <= i < tables.buses.len() && (#[trigger] tables.buses[i]).bus == bus.bus;
            let bad = row_image(1, bus_cells(bus)) is None;
            let full = tables.buses.len() >= 8;
            &&& took == Taking::Refused(TopologyError::Duplicate(RowKind::Bus, bus.bus as u16))
                <==> known
            &&& took is BadRow <==> !known && bad
            &&& took == Taking::Refused(TopologyError::Full(RowKind::Bus)) <==> !known && !bad
                && full
            &&& took is Taken <==> !known && !bad && !full
            &&& took matches Taking::Taken(left) ==> {
                &&& one_more(tables.buses, left.buses, bus)
                &&& left.devices == tables.devices
                &&& left.components == tables.components
                &&& left.signals == tables.signals
            }
        }),
{
    law_a_bus_is_found_where_it_is_held(tables.buses, bus.bus);
    lemma_place_inside(bus_ids(tables.buses), bus.bus as int);
    if let Taking::Taken(left) = take_bus(tables, bus) {
        let at = place_of(bus_ids(tables.buses), bus.bus as int);
        assert(left.buses == tables.buses.insert(at, bus));
    }
}

/// Buses held once each: a number names one row.
proof fn lemma_bus_is(tables: Tables, i: int)
    requires
        tables.wf(),
        0 <= i < tables.buses.len(),
    ensures
        find_bus(tables.buses, tables.buses[i].bus) == Some(tables.buses[i]),
{
    let buses = tables.buses;
    let ids = bus_ids(buses);
    law_a_bus_is_found_where_it_is_held(buses, buses[i].bus);
    let held = find_bus(buses, buses[i].bus)->0;
    let j = choose|j: int| 0 <= j < buses.len() && buses[j] == held;
    assert(ids[i] == ids[j]);
    if i < j {
        assert(ids[i] < ids[j]);
    } else if j < i {
        assert(ids[j] < ids[i]);
    }
}

/// A device is refused for the first of these that holds: its number is taken;
/// its bus is not held; it has no address on a bus that tells devices apart by
/// one, or another device's of that bus; its parent is not held, or its chain of
/// parents is too deep; its row does not go out; twenty-four are held already.
/// Else it is taken, at the revision it appeared at.
pub proof fn law_a_device_is_taken_or_refused_for_its_reason(
    tables: Tables,
    device: SiteDevice,
    rev: u32,
)
    requires
        tables.wf(),
    ensures
        ({
            let took = take_device(tables, device, rev);
            let row = HeldDevice { device, since: rev };
            let known = exists|i: int|
                0 <= i < tables.devices.len() && (#[trigger] tables.devices[i]).device.dev
                    == device.dev;
            let on_bus = exists|i: int|
                0 <= i < tables.buses.len() && (#[trigger] tables.buses[i]).bus == device.bus;
            let unnamed = device.addr is None && exists|i: int|
                0 <= i < tables.buses.len() && (#[trigger] tables.buses[i]).bus == device.bus && (
                tables.buses[i].transport == Transport::Rs485 || tables.buses[i].transport
                    == Transport::Can || tables.buses[i].transport == Transport::Ip);
            let clash = device.addr is Some && exists|i: int|
                0 <= i < tables.devices.len() && (#[trigger] tables.devices[i]).device.bus
                    == device.bus && tables.devices[i].device.addr is Some && (
                tables.devices[i].device.addr->0)@ == (device.addr->0)@;
            let chain = device_chain(tables.devices, device.parent, 3, device.dev);
            let bad = row_image(2, device_cells(row)) is None;
            let full = tables.devices.len() >= 24;
            &&& took == Taking::Refused(TopologyError::Duplicate(RowKind::Device, device.dev))
                <==> known
            &&& took == Taking::Refused(TopologyError::NoSuchBus(device.bus)) <==> !known && !on_bus
            &&& took == Taking::Refused(TopologyError::Address(device.dev)) <==> !known && on_bus
                && (unnamed || clash)
            &&& !known && on_bus && !unnamed && !clash && chain is Some ==> took == Taking::Refused(
                chain->0,
            )
            &&& !known && on_bus && !unnamed && !clash && chain is None ==> {
                &&& took is BadRow <==> bad
                &&& took == Taking::Refused(TopologyError::Full(RowKind::Device)) <==> !bad && full
                &&& took is Taken <==> !bad && !full
            }
            &&& took matches Taking::Taken(left) ==> {
                &&& chain is None
                &&& one_more(tables.devices, left.devices, row)
                &&& left.buses == tables.buses
                &&& left.components == tables.components
                &&& left.signals == tables.signals
            }
        }),
{
    law_a_device_is_found_where_it_is_held(tables.devices, device.dev);
    law_a_bus_is_found_where_it_is_held(tables.buses, device.bus);
    lemma_place_inside(device_ids(tables.devices), device.dev as int);
    assert forall|i: int|
        0 <= i < tables.buses.len() && (#[trigger] tables.buses[i]).bus == device.bus implies
        find_bus(tables.buses, device.bus) == Some(tables.buses[i]) by {
        lemma_bus_is(tables, i);
    }
    lemma_device_chain_names(tables, device.parent, 3, device.dev);
    if let Taking::Taken(left) = take_device(tables, device, rev) {
        let at = place_of(device_ids(tables.devices), device.dev as int);
        assert(left.devices == tables.devices.insert(at, HeldDevice { device, since: rev }));
    }
}

/// A chain is refused for a parent that is not held, or for its depth.
proof fn lemma_device_chain_names(tables: Tables, at: Option<u16>, left: nat, dev: u16)
    ensures
        device_chain(tables.devices, at, left, dev) matches Some(why) ==> why is NoSuchDevice || why
            == TopologyError::TooDeep(dev),
    decreases left,
{
    if let Some(here) = at {
        if let Some(held) = find_device(tables.devices, here) {
            if left > 0 {
                lemma_device_chain_names(tables, held.device.parent, (left - 1) as nat, dev);
            }
        }
    }
}

/// Whether a device of that number is held.
pub open spec fn device_held(devices: Seq<HeldDevice>, dev: u16) -> bool {
    exists|i: int| 0 <= i < devices.len() && (#[trigger] devices[i]).device.dev == dev
}

/// A device with no parent has no chain to refuse; one whose parent is not held
/// is refused for that parent.
pub proof fn law_a_parent_is_held(devices: Seq<HeldDevice>, parent: u16, left: nat, dev: u16)
    ensures
        device_chain(devices, None, left, dev) is None,
        !device_held(devices, parent) ==> device_chain(devices, Some(parent), left, dev) == Some(
            TopologyError::NoSuchDevice(parent),
        ),
{
    law_a_device_is_found_where_it_is_held(devices, parent);
}

/// A chain of parents is too deep exactly when a walk up it passes four held
/// devices, so a device has at most three above it.
pub proof fn law_a_chain_of_four_is_too_deep(tables: Tables, parent: u16, dev: u16)
    requires
        tables.wf(),
    ensures
        device_chain(tables.devices, Some(parent), 3, dev) == Some(TopologyError::TooDeep(dev))
            <==> exists|path: Seq<u16>|
            {
                &&& #[trigger] climbs_devices(tables.devices, path)
                &&& path.len() == 4
                &&& path[0] == parent
                &&& device_held(tables.devices, path.last())
            },
{
    if device_chain(tables.devices, Some(parent), 3, dev) == Some(TopologyError::TooDeep(dev)) {
        let path = lemma_deep_walked(tables, parent, 3, dev);
        assert(climbs_devices(tables.devices, path));
    }
    if exists|path: Seq<u16>|
        {
            &&& #[trigger] climbs_devices(tables.devices, path)
            &&& path.len() == 4
            &&& path[0] == parent
            &&& device_held(tables.devices, path.last())
        } {
        let path = choose|path: Seq<u16>|
            {
                &&& #[trigger] climbs_devices(tables.devices, path)
                &&& path.len() == 4
                &&& path[0] == parent
                &&& device_held(tables.devices, path.last())
            };
        lemma_deep_walk(tables, path, 3, dev);
    }
}

/// The walk a chain too deep goes.
proof fn lemma_deep_walked(tables: Tables, at: u16, left: nat, dev: u16) -> (path: Seq<u16>)
    requires
        tables.wf(),
        device_chain(tables.devices, Some(at), left, dev) == Some(TopologyError::TooDeep(dev)),
    ensures
        climbs_devices(tables.devices, path),
        path.len() == left + 1,
        path[0] == at,
        device_held(tables.devices, path.last()),
    decreases left,
{
    reveal_with_fuel(device_chain, 2);
    law_a_device_is_found_where_it_is_held(tables.devices, at);
    if left == 0 {
        seq![at]
    } else {
        let held = find_device(tables.devices, at)->0;
        let up = held.device.parent->0;
        let rest = lemma_deep_walked(tables, up, (left - 1) as nat, dev);
        let path = seq![at] + rest;
        assert forall|i: int, j: int|
            0 <= i && j == i + 1 && j < path.len() implies device_under(
            tables.devices,
            #[trigger] path[i],
            #[trigger] path[j],
        ) by {
            assert(path[j] == rest[j - 1]);
            if i == 0 {
                let k = choose|k: int| 0 <= k < tables.devices.len() && tables.devices[k] == held;
                assert(tables.devices[k].device.dev == path[0]);
            } else {
                assert(path[i] == rest[i - 1]);
            }
        }
        assert(path.last() == rest.last());
        path
    }
}

/// A walk past so many held devices is a chain too deep.
proof fn lemma_deep_walk(tables: Tables, path: Seq<u16>, left: nat, dev: u16)
    requires
        tables.wf(),
        climbs_devices(tables.devices, path),
        path.len() == left + 1,
        device_held(tables.devices, path.last()),
    ensures
        device_chain(tables.devices, Some(path[0]), left, dev) == Some(
            TopologyError::TooDeep(dev),
        ),
    decreases left,
{
    law_a_device_is_found_where_it_is_held(tables.devices, path[0]);
    if left > 0 {
        let rest = path.skip(1);
        assert forall|i: int, j: int|
            0 <= i && j == i + 1 && j < rest.len() implies device_under(
            tables.devices,
            #[trigger] rest[i],
            #[trigger] rest[j],
        ) by {
            assert(rest[i] == path[i + 1]);
            assert(rest[j] == path[j + 1]);
        }
        assert(rest.last() == path.last());
        lemma_deep_walk(tables, rest, (left - 1) as nat, dev);
        assert(device_under(tables.devices, path[0], path[1]));
        let j = choose|j: int|
            0 <= j < tables.devices.len() && (#[trigger] tables.devices[j]).device.dev == path[0]
                && tables.devices[j].device.parent == Some(path[1]);
        lemma_device_is(tables, j);
    }
}

/// A component is refused for the first of these that holds: its number is
/// taken; its device is not held; its parent is not a component held of that
/// device, or its chain is too deep; its row does not go out; forty-eight are
/// held already. Else it is taken.
pub proof fn law_a_component_is_taken_or_refused_for_its_reason(
    tables: Tables,
    component: SiteComponent,
    rev: u32,
)
    ensures
        ({
            let took = take_component(tables, component, rev);
            let row = HeldComponent { component, since: rev };
            let known = exists|i: int|
                0 <= i < tables.components.len() && (
                #[trigger] tables.components[i]).component.comp == component.comp;
            let on_device = device_held(tables.devices, component.dev);
            let chain = component_chain(
                tables.components,
                component.parent,
                3,
                component.dev,
                component.comp,
            );
            let bad = row_image(3, component_cells(row)) is None;
            let full = tables.components.len() >= 48;
            &&& took == Taking::Refused(
                TopologyError::Duplicate(RowKind::Component, component.comp@),
            ) <==> known
            &&& took == Taking::Refused(TopologyError::NoSuchDevice(component.dev)) <==> !known
                && !on_device
            &&& !known && on_device && chain is Some ==> took == Taking::Refused(chain->0)
            &&& !known && on_device && chain is None ==> {
                &&& took is BadRow <==> bad
                &&& took == Taking::Refused(TopologyError::Full(RowKind::Component)) <==> !bad
                    && full
                &&& took is Taken <==> !bad && !full
            }
            &&& took matches Taking::Taken(left) ==> {
                &&& chain is None
                &&& one_more(tables.components, left.components, row)
                &&& left.buses == tables.buses
                &&& left.devices == tables.devices
                &&& left.signals == tables.signals
            }
        }),
{
    law_a_component_is_found_where_it_is_held(tables.components, component.comp);
    law_a_device_is_found_where_it_is_held(tables.devices, component.dev);
    lemma_place_inside(component_ids(tables.components), component.comp@ as int);
    lemma_component_chain_names(
        tables.components,
        component.parent,
        3,
        component.dev,
        component.comp,
    );
    if let Taking::Taken(left) = take_component(tables, component, rev) {
        let at = place_of(component_ids(tables.components), component.comp@ as int);
        assert(left.components == tables.components.insert(
            at,
            HeldComponent { component, since: rev },
        ));
    }
}

/// A chain is refused for a parent that is not held on the device, or for its
/// depth.
proof fn lemma_component_chain_names(
    components: Seq<HeldComponent>,
    at: Option<Id>,
    left: nat,
    dev: u16,
    comp: Id,
)
    ensures
        component_chain(components, at, left, dev, comp) matches Some(why) ==> why
            is NoSuchComponent || why == TopologyError::TooDeep(comp@),
    decreases left,
{
    if let Some(here) = at {
        if let Some(held) = find_component(components, here) {
            if held.component.dev == dev && left > 0 {
                lemma_component_chain_names(
                    components,
                    held.component.parent,
                    (left - 1) as nat,
                    dev,
                    comp,
                );
            }
        }
    }
}

/// A component with no parent has no chain to refuse; one whose parent is not
/// held, or is held of another device, is refused for that parent.
pub proof fn law_a_parent_is_of_the_same_device(
    components: Seq<HeldComponent>,
    parent: Id,
    left: nat,
    dev: u16,
    comp: Id,
)
    ensures
        component_chain(components, None, left, dev, comp) is None,
        (forall|i: int|
            0 <= i < components.len() && (#[trigger] components[i]).component.comp == parent
                ==> components[i].component.dev != dev) ==> component_chain(
            components,
            Some(parent),
            left,
            dev,
            comp,
        ) == Some(TopologyError::NoSuchComponent(parent@)),
{
    law_a_component_is_found_where_it_is_held(components, parent);
    if let Some(held) = find_component(components, parent) {
        let i = choose|i: int| 0 <= i < components.len() && components[i] == held;
        assert(components[i].component.comp == parent);
    }
}

/// A signal is refused for the first of these that holds: its number is taken;
/// its device is not held; it names a component that is not held of that
/// device; its kind is a vendor's own; another signal is the same reading; its
/// row does not go out; sixty-four are held already. Else it is taken.
pub proof fn law_a_signal_is_taken_or_refused_for_its_reason(tables: Tables, signal: SiteSignal)
    requires
        tables.wf(),
    ensures
        ({
            let took = take_signal(tables, signal);
            let known = exists|i: int|
                0 <= i < tables.signals.len() && (#[trigger] tables.signals[i]).sig == signal.sig;
            let on_device = device_held(tables.devices, signal.dev);
            let astray = signal.comp is Some && forall|i: int|
                0 <= i < tables.components.len() && (
                #[trigger] tables.components[i]).component.comp == signal.comp->0
                    ==> tables.components[i].component.dev != signal.dev;
            let vendor = signal.kind.0 >= 0xf000;
            let twin = exists|i: int|
                {
                    let other = #[trigger] tables.signals[i];
                    &&& 0 <= i < tables.signals.len()
                    &&& other.dev == signal.dev
                    &&& other.comp == signal.comp
                    &&& other.kind == signal.kind
                    &&& other.vtype == signal.vtype
                    &&& other.domain == signal.domain
                    &&& other.point == signal.point
                    &&& other.dir == signal.dir
                };
            let bad = row_image(4, signal_cells(signal)) is None;
            let full = tables.signals.len() >= 64;
            let so_far = !known && on_device && !astray;
            &&& took == Taking::Refused(TopologyError::Duplicate(RowKind::Signal, signal.sig@))
                <==> known
            &&& took == Taking::Refused(TopologyError::NoSuchDevice(signal.dev)) <==> !known
                && !on_device
            &&& (took is Refused && took->Refused_0 is NoSuchComponent) <==> !known && on_device
                && astray
            &&& took == Taking::Refused(TopologyError::VendorKind(signal.sig)) <==> so_far && vendor
            &&& took == Taking::Refused(TopologyError::Collides(signal.sig)) <==> so_far && !vendor
                && twin
            &&& took is BadRow <==> so_far && !vendor && !twin && bad
            &&& took == Taking::Refused(TopologyError::Full(RowKind::Signal)) <==> so_far && !vendor
                && !twin && !bad && full
            &&& took is Taken <==> so_far && !vendor && !twin && !bad && !full
            &&& took matches Taking::Taken(left) ==> {
                &&& one_more(tables.signals, left.signals, signal)
                &&& left.buses == tables.buses
                &&& left.devices == tables.devices
                &&& left.components == tables.components
            }
        }),
{
    law_a_signal_is_found_where_it_is_held(tables.signals, signal.sig);
    law_a_device_is_found_where_it_is_held(tables.devices, signal.dev);
    lemma_place_inside(signal_ids(tables.signals), signal.sig@ as int);
    if let Some(comp) = signal.comp {
        law_a_component_is_found_where_it_is_held(tables.components, comp);
        if let Some(held) = find_component(tables.components, comp) {
            let k = choose|k: int| 0 <= k < tables.components.len() && tables.components[k] == held;
            assert(tables.components[k].component.comp == comp);
            let ids = component_ids(tables.components);
            assert forall|i: int|
                0 <= i < tables.components.len() && (
                #[trigger] tables.components[i]).component.comp == comp implies i == k by {
                assert(ids[i] == ids[k]);
                if i < k {
                    assert(ids[i] < ids[k]);
                } else if k < i {
                    assert(ids[k] < ids[i]);
                }
            }
        }
    }
    if let Taking::Taken(left) = take_signal(tables, signal) {
        let at = place_of(signal_ids(tables.signals), signal.sig@ as int);
        assert(left.signals == tables.signals.insert(at, signal));
    }
}

/// A request for rows is refused for its reason and no other: a revision that
/// is not the one held; then a kind nobody has; then a cursor past every row of
/// its kind.
pub proof fn law_a_request_for_rows_is_refused_for_its_reason(
    tables: Tables,
    request: ReadInventory,
)
    requires
        tables.wf(),
    ensures
        ({
            let outcome = outcome_of(tables, request);
            let stale = request.rev != 0 && request.rev != tables.rev;
            let strange = !(1 <= request.what <= 5);
            let rows = listing(tables, RowKind::spec_of(request.what)->0);
            let past = request.from != 0 && forall|i: int|
                0 <= i < rows.len() ==> (#[trigger] rows[i]).id < request.from;
            &&& outcome == InventoryOutcome::Superseded <==> stale
            &&& outcome == InventoryOutcome::UnknownKind <==> !stale && strange
            &&& outcome == InventoryOutcome::OutOfRange <==> !stale && !strange && past
            &&& outcome == InventoryOutcome::Answered <==> !stale && !strange && !past
        }),
{
    if let Some(kind) = RowKind::spec_of(request.what) {
        let rows = listing(tables, kind);
        if rows.len() > 0 {
            let last = rows.len() - 1;
            assert(rows.last() == rows[last]);
            assert forall|i: int| 0 <= i < rows.len() implies (#[trigger] rows[i]).id
                <= rows.last().id by {
                match kind {
                    RowKind::Bus => {
                        let ids = bus_ids(tables.buses);
                        if i < last {
                            assert(ids[i] < ids[last]);
                        }
                    },
                    RowKind::Device => {
                        let ids = device_ids(tables.devices);
                        if i < last {
                            assert(ids[i] < ids[last]);
                        }
                    },
                    RowKind::Component => {
                        let ids = component_ids(tables.components);
                        if i < last {
                            assert(ids[i] < ids[last]);
                        }
                    },
                    RowKind::Signal => {
                        let ids = signal_ids(tables.signals);
                        if i < last {
                            assert(ids[i] < ids[last]);
                        }
                    },
                    RowKind::Param => {},
                }
            }
        }
    }
}

/// A request that is answered carries the page from its cursor, the number of
/// rows of its kind, and the digest only on the last page of a request for
/// every device; one that is refused carries neither page nor digest. Every
/// answer carries the revision held.
pub proof fn law_an_answer_carries_its_page(tables: Tables, request: ReadInventory)
    ensures
        ({
            let outcome = outcome_of(tables, request);
            let kind = RowKind::spec_of(request.what)->0;
            let page = page_from(tables, kind, request.from);
            let count = listing(tables, kind).len() as u16;
            &&& outcome is Answered && (page.next != 0 || request.dev is Some) ==> answer_of(
                tables,
                request,
            ) == inventory_image(
                tables.rev,
                request.what,
                1,
                count,
                Some((page.rows, page.next)),
                None,
            )
            &&& outcome is Answered && page.next == 0 && request.dev is None ==> answer_of(
                tables,
                request,
            ) == inventory_image(
                tables.rev,
                request.what,
                1,
                count,
                Some((page.rows, 0)),
                Some(tables.digest),
            )
            &&& outcome is Superseded && 1 <= request.what <= 5 ==> answer_of(tables, request)
                == inventory_image(tables.rev, request.what, 2, count, None, None)
            &&& outcome is UnknownKind ==> answer_of(tables, request) == inventory_image(
                tables.rev,
                request.what,
                3,
                0,
                None,
                None,
            )
            &&& outcome is OutOfRange ==> answer_of(tables, request) == inventory_image(
                tables.rev,
                request.what,
                4,
                count,
                None,
                None,
            )
        }),
{
}

/// Each kind is listed row for row, under its own numbers; there are no
/// parameters.
pub proof fn law_each_kind_is_listed_row_for_row(tables: Tables, i: int)
    ensures
        listing(tables, RowKind::Bus).len() == tables.buses.len(),
        listing(tables, RowKind::Device).len() == tables.devices.len(),
        listing(tables, RowKind::Component).len() == tables.components.len(),
        listing(tables, RowKind::Signal).len() == tables.signals.len(),
        listing(tables, RowKind::Param).len() == 0,
        0 <= i < tables.buses.len() ==> listing(tables, RowKind::Bus)[i].id == tables.buses[i].bus,
        0 <= i < tables.devices.len() ==> listing(tables, RowKind::Device)[i].id
            == tables.devices[i].device.dev,
        0 <= i < tables.components.len() ==> listing(tables, RowKind::Component)[i].id
            == tables.components[i].component.comp@,
        0 <= i < tables.signals.len() ==> listing(tables, RowKind::Signal)[i].id
            == tables.signals[i].sig@,
{
}

/// A cell for a number that may not be there.
pub open spec fn maybe(number: Option<u16>) -> Cell {
    match number {
        Some(number) => Cell::U16(number),
        None => Cell::Absent,
    }
}

/// Each field of a row goes out in its own column, and the columns nothing is
/// declared for are empty.
pub proof fn law_each_field_has_its_column(
    bus: SiteBus,
    device: HeldDevice,
    component: HeldComponent,
    signal: SiteSignal,
)
    ensures
        ({
            let row = bus_cells(bus);
            &&& row.len() == 4
            &&& row[0] == Cell::U8(bus.bus)
            &&& row[1] == Cell::U8(bus.transport.spec_number())
            &&& row[3] == Cell::Absent <==> bus.rate is None
            &&& bus.rate matches Some(rate) ==> row[3] == Cell::U32(rate)
        }),
        ({
            let row = device_cells(device);
            &&& row.len() == 13
            &&& row[0] == Cell::U16(device.device.dev)
            &&& row[1] == Cell::U8(device.device.bus)
            &&& row[2] == Cell::Absent <==> device.device.addr is None
            &&& device.device.addr matches Some(addr) ==> row[2] == Cell::Bytes(addr)
            &&& row[3] == Cell::U16(device.device.product.0)
            &&& row[4] == Cell::U16(device.device.dialect.0)
            &&& row[5] == Cell::U16(device.device.role.0)
            &&& row[6] == maybe(device.device.parent)
            &&& row[11] == Cell::U32(device.since)
        }),
        ({
            let row = component_cells(component);
            &&& row.len() == 9
            &&& row[0] == Cell::U16(component.component.comp@)
            &&& row[1] == Cell::U16(component.component.dev)
            &&& row[2] == Cell::Absent <==> component.component.parent is None
            &&& component.component.parent matches Some(parent) ==> row[2] == Cell::U16(parent@)
            &&& row[3] == Cell::U16(component.component.role.0)
            &&& row[4] == maybe(component.component.index)
            &&& row[8] == Cell::U32(component.since)
        }),
        ({
            let row = signal_cells(signal);
            &&& row.len() == 18
            &&& row[0] == Cell::U16(signal.sig@)
            &&& row[1] == Cell::U16(signal.dev)
            &&& signal.comp is None ==> row[2] == Cell::U16(0)
            &&& signal.comp matches Some(comp) ==> row[2] == Cell::U16(comp@)
            &&& row[3] == Cell::U16(signal.kind.0)
            &&& row[5] == Cell::U8(signal.vtype.spec_number())
            &&& row[6] == Cell::U8(signal.domain.spec_number())
            &&& row[7] == Cell::Absent <==> signal.point is None
            &&& signal.point matches Some(point) ==> row[7] == Cell::U16(point.0)
            &&& row[8] == Cell::Absent <==> signal.dir is None
            &&& signal.dir matches Some(dir) ==> row[8] == Cell::U8(dir.spec_number())
            &&& row[12] == Cell::Absent <==> signal.esp is None
            &&& signal.esp matches Some(esp) ==> row[12] == Cell::U16(esp.0)
        }),
{
}

/// A move of the revision owes its rows: at a boot all that the tables hold,
/// else those of the batch; nothing is ever removed. The rows themselves are
/// not moved by it.
pub proof fn law_a_move_owes_its_rows(
    taken: Tables,
    reason: TopologyChangeReason,
    rev: u32,
    batch: nat,
)
    requires
        taken.wf(),
        batch <= 65_535,
    ensures
        ({
            let owed = changed_by(taken, reason, rev, batch);
            &&& owed.rev == rev
            &&& owed.reason == reason
            &&& owed.removed == 0
            &&& reason == TopologyChangeReason::Boot ==> owed.added == taken.buses.len()
                + taken.devices.len() + taken.components.len() + taken.signals.len()
            &&& reason != TopologyChangeReason::Boot ==> owed.added == batch
        }),
        moved(taken, rev).rev == rev,
        moved(taken, rev).buses == taken.buses,
        moved(taken, rev).devices == taken.devices,
        moved(taken, rev).components == taken.components,
        moved(taken, rev).signals == taken.signals,
{
}

/// The digest is of every row of every kind, as it goes out: the buses, then the
/// devices, the components and the signals, each kind in its order.
pub proof fn law_the_digest_covers_every_row(tables: Tables, rev: u32)
    ensures
        moved(tables, rev).digest == topo_digest(
            rev,
            sent(listing(tables, RowKind::Bus), RowKind::Bus) + sent(
                listing(tables, RowKind::Device),
                RowKind::Device,
            ) + sent(listing(tables, RowKind::Component), RowKind::Component) + sent(
                listing(tables, RowKind::Signal),
                RowKind::Signal,
            ),
        ),
{
}

/// A page has room for one more row up to 48 of them and 880 bytes, and a page of
/// readings for one more sample up to 40 of them and 880 bytes.
pub proof fn law_a_page_has_its_room(page: Paged, bytes: Seq<u8>)
    ensures
        room_for(page, bytes) <==> page.rows.len() <= 47 && flat(page.rows).len() + bytes.len()
            <= 880,
        sample_fits(page.rows, bytes) <==> page.rows.len() <= 39 && flat(page.rows).len()
            + bytes.len() <= 880,
{
}

} // verus!
