//! What holds of the descriptor tables as a whole: chains of parents end, a
//! page resumes where the last one stopped, and what is not taken changes
//! nothing.

use crate::reading::Id;
use crate::site_rows::{Descriptor, SiteComponent};
use crate::topology::{
    component_chain, device_chain, find_component, find_device, place_of, take_all, take_row,
    HeldComponent, HeldDevice, Tables, Taking, MAX_TOPOLOGY_DEPTH,
};
use vstd::prelude::*;

verus! {

broadcast use Id::same_number_same_id;

/// Whether the chain of parents of every device, and of every component, ends
/// within the depth.
pub open spec fn chains_end(tables: Tables) -> bool {
    &&& forall|i: int|
        0 <= i < tables.devices.len() ==> device_chain(
            tables.devices,
            (#[trigger] tables.devices[i]).device.parent,
            (MAX_TOPOLOGY_DEPTH - 1) as nat,
            tables.devices[i].device.dev,
        ) is None
    &&& forall|i: int|
        0 <= i < tables.components.len() ==> component_chain(
            tables.components,
            (#[trigger] tables.components[i]).component.parent,
            (MAX_TOPOLOGY_DEPTH - 1) as nat,
            tables.components[i].component.dev,
            tables.components[i].component.comp,
        ) is None
}

/// A device put among others is found, and the others still are.
pub proof fn lemma_find_device_insert(devices: Seq<HeldDevice>, at: int, row: HeldDevice, id: u16)
    requires
        0 <= at <= devices.len(),
        find_device(devices, row.device.dev) is None,
    ensures
        find_device(devices.insert(at, row), id) == (if id == row.device.dev {
            Some(row)
        } else {
            find_device(devices, id)
        }),
    decreases at,
{
    let more = devices.insert(at, row);
    if at == 0 {
        assert(more.skip(1) =~= devices);
    } else {
        assert(more.skip(1) =~= devices.skip(1).insert(at - 1, row));
        lemma_find_device_insert(devices.skip(1), at - 1, row, id);
    }
}

/// A component put among others is found, and the others still are.
proof fn lemma_find_component_insert(
    components: Seq<HeldComponent>,
    at: int,
    row: HeldComponent,
    id: Id,
)
    requires
        0 <= at <= components.len(),
        find_component(components, row.component.comp) is None,
    ensures
        find_component(components.insert(at, row), id) == (if id == row.component.comp {
            Some(row)
        } else {
            find_component(components, id)
        }),
    decreases at,
{
    let more = components.insert(at, row);
    if at == 0 {
        assert(more.skip(1) =~= components);
    } else {
        assert(more.skip(1) =~= components.skip(1).insert(at - 1, row));
        lemma_find_component_insert(components.skip(1), at - 1, row, id);
    }
}

/// A chain that ends still ends when a device is added.
proof fn lemma_device_chain_insert(
    devices: Seq<HeldDevice>,
    at: int,
    row: HeldDevice,
    from: Option<u16>,
    left: nat,
    dev: u16,
    other: u16,
)
    requires
        0 <= at <= devices.len(),
        find_device(devices, row.device.dev) is None,
        device_chain(devices, from, left, dev) is None,
    ensures
        device_chain(devices.insert(at, row), from, left, other) is None,
    decreases left,
{
    if let Some(here) = from {
        lemma_find_device_insert(devices, at, row, here);
        let held = find_device(devices, here)->0;
        lemma_device_chain_insert(
            devices,
            at,
            row,
            held.device.parent,
            (left - 1) as nat,
            dev,
            other,
        );
    }
}

/// A chain that ends still ends when a component is added.
proof fn lemma_component_chain_insert(
    components: Seq<HeldComponent>,
    at: int,
    row: HeldComponent,
    from: Option<Id>,
    left: nat,
    dev: u16,
    comp: Id,
)
    requires
        0 <= at <= components.len(),
        find_component(components, row.component.comp) is None,
        component_chain(components, from, left, dev, comp) is None,
    ensures
        component_chain(components.insert(at, row), from, left, dev, comp) is None,
    decreases left,
{
    if let Some(here) = from {
        lemma_find_component_insert(components, at, row, here);
        let held = find_component(components, here)->0;
        lemma_component_chain_insert(
            components,
            at,
            row,
            held.component.parent,
            (left - 1) as nat,
            dev,
            comp,
        );
    }
}

/// Where a row goes is among the rows or at their end.
pub proof fn lemma_place_inside(ids: Seq<int>, id: int)
    ensures
        0 <= place_of(ids, id) <= ids.len(),
    decreases ids.len(),
{
    if ids.len() > 0 && ids[0] <= id {
        lemma_place_inside(ids.skip(1), id);
    }
}

/// Chains of parents always end: taking a row, of whatever kind, keeps every
/// chain of parents within the depth, so a walk up a chain never runs on.
pub proof fn law_chains_of_parents_end(tables: Tables, declared: Descriptor, rev: u32)
    requires
        chains_end(tables),
    ensures
        take_row(tables, declared, rev) matches Taking::Taken(left) ==> chains_end(left),
{
    if let Taking::Taken(left) = take_row(tables, declared, rev) {
        match declared {
            Descriptor::Device(device) => {
                let row = HeldDevice { device, since: rev };
                let ids = crate::topology::device_ids(tables.devices);
                let at = place_of(ids, device.dev as int);
                lemma_place_inside(ids, device.dev as int);
                assert(left.devices == tables.devices.insert(at, row));
                assert forall|i: int| 0 <= i < left.devices.len() implies device_chain(
                    left.devices,
                    (#[trigger] left.devices[i]).device.parent,
                    (MAX_TOPOLOGY_DEPTH - 1) as nat,
                    left.devices[i].device.dev,
                ) is None by {
                    let held = left.devices[i];
                    let old_dev = if i == at {
                        device.dev
                    } else {
                        held.device.dev
                    };
                    if i < at {
                        assert(held == tables.devices[i]);
                    } else if i > at {
                        assert(held == tables.devices[i - 1]);
                    }
                    lemma_device_chain_insert(
                        tables.devices,
                        at,
                        row,
                        held.device.parent,
                        (MAX_TOPOLOGY_DEPTH - 1) as nat,
                        old_dev,
                        held.device.dev,
                    );
                }
            },
            Descriptor::Component(component) => {
                let row = HeldComponent { component, since: rev };
                let ids = crate::topology::component_ids(tables.components);
                let id = component.comp@;
                let at = crate::topology_laws::component_place(tables, component);
                lemma_component_place(tables, component);
                assert(left.components == tables.components.insert(at, row));
                assert forall|i: int| 0 <= i < left.components.len() implies component_chain(
                    left.components,
                    (#[trigger] left.components[i]).component.parent,
                    (MAX_TOPOLOGY_DEPTH - 1) as nat,
                    left.components[i].component.dev,
                    left.components[i].component.comp,
                ) is None by {
                    let held = left.components[i];
                    if i < at {
                        assert(held == tables.components[i]);
                    } else if i > at {
                        assert(held == tables.components[i - 1]);
                    }
                    lemma_component_chain_insert(
                        tables.components,
                        at,
                        row,
                        held.component.parent,
                        (MAX_TOPOLOGY_DEPTH - 1) as nat,
                        held.component.dev,
                        held.component.comp,
                    );
                }
            },
            _ => {
                assert(left.devices == tables.devices);
                assert(left.components == tables.components);
            },
        }
    }
}

/// Where a component goes.
pub open spec fn component_place(tables: Tables, component: SiteComponent) -> int {
    place_of(crate::topology::component_ids(tables.components), component.comp@ as int)
}

/// Where a component goes is among the components or at their end.
proof fn lemma_component_place(tables: Tables, component: SiteComponent)
    ensures
        0 <= component_place(tables, component) <= tables.components.len(),
{
    lemma_place_inside(
        crate::topology::component_ids(tables.components),
        component.comp@ as int,
    );
}

/// Chains of parents end in every table a batch leaves.
pub proof fn law_chains_of_parents_end_after_a_batch(
    tables: Tables,
    batch: Seq<Descriptor>,
    rev: u32,
)
    requires
        chains_end(tables),
    ensures
        take_all(tables, batch, rev) matches Taking::Taken(left) ==> chains_end(left),
    decreases batch.len(),
{
    if batch.len() > 0 {
        law_chains_of_parents_end_after_a_batch(tables, batch.drop_last(), rev);
        if let Taking::Taken(so_far) = take_all(tables, batch.drop_last(), rev) {
            law_chains_of_parents_end(so_far, batch.last(), rev);
        }
    }
}

/// A batch is taken whole or not at all: refusing its front refuses all of it,
/// and taking all of it took every front of it.
pub proof fn law_a_batch_is_taken_whole(
    tables: Tables,
    batch: Seq<Descriptor>,
    rev: u32,
    n: int,
)
    requires
        0 <= n <= batch.len(),
    ensures
        take_all(tables, batch, rev) is Taken ==> take_all(tables, batch.take(n), rev) is Taken,
        !(take_all(tables, batch.take(n), rev) is Taken) ==> take_all(tables, batch, rev)
            == take_all(tables, batch.take(n), rev),
    decreases batch.len(),
{
    if n == batch.len() {
        assert(batch.take(n) =~= batch);
    } else {
        assert(batch.drop_last().take(n) =~= batch.take(n));
        law_a_batch_is_taken_whole(tables, batch.drop_last(), rev, n);
    }
}

/// A row added is under the tables it was added to: every row held before is
/// held after, so nothing is evicted.
pub proof fn law_nothing_is_evicted(tables: Tables, declared: Descriptor, rev: u32)
    ensures
        take_row(tables, declared, rev) matches Taking::Taken(left) ==> {
            &&& forall|i: int|
                0 <= i < tables.devices.len() ==> left.devices.contains(#[trigger] tables.devices[i])
            &&& forall|i: int|
                0 <= i < tables.signals.len() ==> left.signals.contains(#[trigger] tables.signals[i])
            &&& forall|i: int|
                0 <= i < tables.buses.len() ==> left.buses.contains(#[trigger] tables.buses[i])
            &&& forall|i: int|
                0 <= i < tables.components.len() ==> left.components.contains(
                    #[trigger] tables.components[i],
                )
        },
{
    if let Taking::Taken(left) = take_row(tables, declared, rev) {
        match declared {
            Descriptor::Bus(bus) => {
                let at = place_of(crate::topology::bus_ids(tables.buses), bus.bus as int);
                lemma_place_inside(crate::topology::bus_ids(tables.buses), bus.bus as int);
                lemma_insert_keeps(tables.buses, at, bus);
            },
            Descriptor::Device(device) => {
                let at = place_of(crate::topology::device_ids(tables.devices), device.dev as int);
                lemma_place_inside(crate::topology::device_ids(tables.devices), device.dev as int);
                lemma_insert_keeps(tables.devices, at, HeldDevice { device, since: rev });
            },
            Descriptor::Component(component) => {
                lemma_component_place(tables, component);
                lemma_insert_keeps(
                    tables.components,
                    component_place(tables, component),
                    HeldComponent { component, since: rev },
                );
            },
            Descriptor::Signal(signal) => {
                let at = place_of(crate::topology::signal_ids(tables.signals), signal.sig@ as int);
                lemma_place_inside(crate::topology::signal_ids(tables.signals), signal.sig@ as int);
                lemma_insert_keeps(tables.signals, at, signal);
            },
        }
        assert forall|i: int| 0 <= i < tables.devices.len() implies left.devices.contains(
            #[trigger] tables.devices[i],
        ) by {
            if left.devices == tables.devices {
                assert(left.devices[i] == tables.devices[i]);
            }
        }
        assert forall|i: int| 0 <= i < tables.signals.len() implies left.signals.contains(
            #[trigger] tables.signals[i],
        ) by {
            if left.signals == tables.signals {
                assert(left.signals[i] == tables.signals[i]);
            }
        }
        assert forall|i: int| 0 <= i < tables.buses.len() implies left.buses.contains(
            #[trigger] tables.buses[i],
        ) by {
            if left.buses == tables.buses {
                assert(left.buses[i] == tables.buses[i]);
            }
        }
        assert forall|i: int| 0 <= i < tables.components.len() implies left.components.contains(
            #[trigger] tables.components[i],
        ) by {
            if left.components == tables.components {
                assert(left.components[i] == tables.components[i]);
            }
        }
    }
}

/// Inserting keeps what was there.
proof fn lemma_insert_keeps<T>(rows: Seq<T>, at: int, row: T)
    requires
        0 <= at <= rows.len(),
    ensures
        forall|i: int| 0 <= i < rows.len() ==> rows.insert(at, row).contains(#[trigger] rows[i]),
{
    let more = rows.insert(at, row);
    assert forall|i: int| 0 <= i < rows.len() implies more.contains(#[trigger] rows[i]) by {
        if i < at {
            assert(more[i] == rows[i]);
        } else {
            assert(more[i + 1] == rows[i]);
        }
    }
}

} // verus!
