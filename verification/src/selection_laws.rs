//! What a request for readings selects: the signal it names, everything below
//! the component or the device it names, and everything when it names nothing.

use crate::reading::Id;
use crate::signals::{SignalError, Slot};
use crate::site::{asked_for, chosen, gathered, readings_outcome, sampled, selection};
use crate::site_rows::{ReadSignals, ReadingsOutcome, Sel, SiteSignal};
use crate::tick::Tick;
use crate::topology::{
    ascending_ids, component_reaches, device_reaches, find_component, find_device, find_signal,
    selected_by, signal_ids, HeldComponent, HeldDevice, Paged, Tables,
};
use crate::wire::{sample_fits, sample_image};
use vstd::prelude::*;

verus! {

broadcast use Id::same_number_same_id;

/// A device is found exactly when one of that number is held, and what is found
/// is it.
pub proof fn law_a_device_is_found_where_it_is_held(devices: Seq<HeldDevice>, id: u16)
    ensures
        find_device(devices, id) is Some <==> exists|i: int|
            0 <= i < devices.len() && (#[trigger] devices[i]).device.dev == id,
        find_device(devices, id) matches Some(held) ==> held.device.dev == id && devices.contains(
            held,
        ),
    decreases devices.len(),
{
    if devices.len() > 0 {
        if devices[0].device.dev == id {
            assert(devices.contains(devices[0]));
        } else {
            let rest = devices.skip(1);
            law_a_device_is_found_where_it_is_held(rest, id);
            if let Some(held) = find_device(rest, id) {
                let i = choose|i: int| 0 <= i < rest.len() && rest[i] == held;
                assert(devices[i + 1] == held);
            }
            assert forall|i: int|
                0 <= i < devices.len() && (#[trigger] devices[i]).device.dev == id implies find_device(
                rest,
                id,
            ) is Some by {
                assert(rest[i - 1] == devices[i]);
            }
        }
    }
}

/// A component is found exactly when one of that number is held, and what is
/// found is it.
pub proof fn law_a_component_is_found_where_it_is_held(components: Seq<HeldComponent>, id: Id)
    ensures
        find_component(components, id) is Some <==> exists|i: int|
            0 <= i < components.len() && (#[trigger] components[i]).component.comp == id,
        find_component(components, id) matches Some(held) ==> held.component.comp == id
            && components.contains(held),
    decreases components.len(),
{
    if components.len() > 0 {
        if components[0].component.comp == id {
            assert(components.contains(components[0]));
        } else {
            let rest = components.skip(1);
            law_a_component_is_found_where_it_is_held(rest, id);
            if let Some(held) = find_component(rest, id) {
                let i = choose|i: int| 0 <= i < rest.len() && rest[i] == held;
                assert(components[i + 1] == held);
            }
            assert forall|i: int|
                0 <= i < components.len() && (#[trigger] components[i]).component.comp
                    == id implies find_component(rest, id) is Some by {
                assert(rest[i - 1] == components[i]);
            }
        }
    }
}

/// A signal is found exactly when one of that number is held, and what is found
/// is it.
pub proof fn law_a_signal_is_found_where_it_is_held(signals: Seq<SiteSignal>, id: Id)
    ensures
        find_signal(signals, id) is Some <==> exists|i: int|
            0 <= i < signals.len() && (#[trigger] signals[i]).sig == id,
        find_signal(signals, id) matches Some(held) ==> held.sig == id && signals.contains(held),
    decreases signals.len(),
{
    if signals.len() > 0 {
        if signals[0].sig == id {
            assert(signals.contains(signals[0]));
        } else {
            let rest = signals.skip(1);
            law_a_signal_is_found_where_it_is_held(rest, id);
            if let Some(held) = find_signal(rest, id) {
                let i = choose|i: int| 0 <= i < rest.len() && rest[i] == held;
                assert(signals[i + 1] == held);
            }
            assert forall|i: int|
                0 <= i < signals.len() && (#[trigger] signals[i]).sig == id implies find_signal(
                rest,
                id,
            ) is Some by {
                assert(rest[i - 1] == signals[i]);
            }
        }
    }
}

/// Whether a device `from` is held whose parent is `to`.
pub open spec fn device_under(devices: Seq<HeldDevice>, from: u16, to: u16) -> bool {
    exists|j: int|
        0 <= j < devices.len() && (#[trigger] devices[j]).device.dev == from
            && devices[j].device.parent == Some(to)
}

/// Whether a component `from` is held whose parent is `to`.
pub open spec fn component_under(components: Seq<HeldComponent>, from: Id, to: Id) -> bool {
    exists|j: int|
        0 <= j < components.len() && (#[trigger] components[j]).component.comp == from
            && components[j].component.parent == Some(to)
}

/// A walk up the devices: each step is to the parent of a held device.
pub open spec fn climbs_devices(devices: Seq<HeldDevice>, path: Seq<u16>) -> bool {
    &&& path.len() > 0
    &&& forall|i: int, j: int|
        0 <= i && j == i + 1 && j < path.len() ==> device_under(
            devices,
            #[trigger] path[i],
            #[trigger] path[j],
        )
}

/// A walk up the components: each step is to the parent of a held component.
pub open spec fn climbs_components(components: Seq<HeldComponent>, path: Seq<Id>) -> bool {
    &&& path.len() > 0
    &&& forall|i: int, j: int|
        0 <= i && j == i + 1 && j < path.len() ==> component_under(
            components,
            #[trigger] path[i],
            #[trigger] path[j],
        )
}

/// Devices held once each: a number names one row.
pub proof fn lemma_device_is(tables: Tables, i: int)
    requires
        tables.wf(),
        0 <= i < tables.devices.len(),
    ensures
        find_device(tables.devices, tables.devices[i].device.dev) == Some(tables.devices[i]),
{
    let devices = tables.devices;
    let ids = crate::topology::device_ids(devices);
    law_a_device_is_found_where_it_is_held(devices, devices[i].device.dev);
    let held = find_device(devices, devices[i].device.dev)->0;
    let j = choose|j: int| 0 <= j < devices.len() && devices[j] == held;
    assert(ids[i] == ids[j]);
    if i < j {
        assert(ids[i] < ids[j]);
    } else if j < i {
        assert(ids[j] < ids[i]);
    }
}

/// Components held once each: a number names one row.
proof fn lemma_component_is(tables: Tables, i: int)
    requires
        tables.wf(),
        0 <= i < tables.components.len(),
    ensures
        find_component(tables.components, tables.components[i].component.comp) == Some(
            tables.components[i],
        ),
{
    let components = tables.components;
    let ids = crate::topology::component_ids(components);
    law_a_component_is_found_where_it_is_held(components, components[i].component.comp);
    let held = find_component(components, components[i].component.comp)->0;
    let j = choose|j: int| 0 <= j < components.len() && components[j] == held;
    assert(ids[i] == ids[j]);
    if i < j {
        assert(ids[i] < ids[j]);
    } else if j < i {
        assert(ids[j] < ids[i]);
    }
}

/// A walk of the devices is one the chain of parents takes.
proof fn lemma_device_walk(tables: Tables, path: Seq<u16>, hops: nat)
    requires
        tables.wf(),
        climbs_devices(tables.devices, path),
        path.len() <= hops,
    ensures
        device_reaches(tables.devices, Some(path[0]), path.last(), hops),
    decreases path.len(),
{
    if path.len() > 1 {
        let rest = path.skip(1);
        assert forall|i: int, j: int|
            0 <= i && j == i + 1 && j < rest.len() implies device_under(
            tables.devices,
            #[trigger] rest[i],
            #[trigger] rest[j],
        ) by {
            assert(rest[i] == path[i + 1]);
            assert(rest[j] == path[j + 1]);
        }
        lemma_device_walk(tables, rest, (hops - 1) as nat);
        assert(device_under(tables.devices, path[0], path[1]));
        let j = choose|j: int|
            0 <= j < tables.devices.len() && (#[trigger] tables.devices[j]).device.dev == path[0]
                && tables.devices[j].device.parent == Some(path[1]);
        lemma_device_is(tables, j);
        assert(rest.last() == path.last());
    }
}

/// The chain of parents a device is reached by is a walk.
proof fn lemma_device_walked(tables: Tables, at: u16, to: u16, hops: nat) -> (path: Seq<u16>)
    requires
        tables.wf(),
        device_reaches(tables.devices, Some(at), to, hops),
    ensures
        climbs_devices(tables.devices, path),
        path.len() <= hops,
        path[0] == at,
        path.last() == to,
    decreases hops,
{
    reveal_with_fuel(device_reaches, 2);
    if at == to {
        seq![at]
    } else {
        law_a_device_is_found_where_it_is_held(tables.devices, at);
        let held = find_device(tables.devices, at)->0;
        let up = held.device.parent->0;
        let rest = lemma_device_walked(tables, up, to, (hops - 1) as nat);
        let path = seq![at] + rest;
        assert forall|i: int, j: int|
            0 <= i && j == i + 1 && j < path.len() implies device_under(
            tables.devices,
            #[trigger] path[i],
            #[trigger] path[j],
        ) by {
            assert(path[j] == rest[j - 1]);
            if i == 0 {
                let k = choose|k: int| 0 <= k < tables.devices.len() && tables.devices[k] == held;
                assert(tables.devices[k].device.dev == path[0]);
            } else {
                assert(path[i] == rest[i - 1]);
            }
        }
        path
    }
}

/// A walk of the components is one the chain of parents takes.
proof fn lemma_component_walk(tables: Tables, path: Seq<Id>, hops: nat)
    requires
        tables.wf(),
        climbs_components(tables.components, path),
        path.len() <= hops,
    ensures
        component_reaches(tables.components, Some(path[0]), path.last(), hops),
    decreases path.len(),
{
    if path.len() > 1 {
        let rest = path.skip(1);
        assert forall|i: int, j: int|
            0 <= i && j == i + 1 && j < rest.len() implies component_under(
            tables.components,
            #[trigger] rest[i],
            #[trigger] rest[j],
        ) by {
            assert(rest[i] == path[i + 1]);
            assert(rest[j] == path[j + 1]);
        }
        lemma_component_walk(tables, rest, (hops - 1) as nat);
        assert(component_under(tables.components, path[0], path[1]));
        let j = choose|j: int|
            0 <= j < tables.components.len() && (#[trigger] tables.components[j]).component.comp == path[0]
                && tables.components[j].component.parent == Some(path[1]);
        lemma_component_is(tables, j);
        assert(rest.last() == path.last());
    }
}

/// The chain of parents a component is reached by is a walk.
proof fn lemma_component_walked(tables: Tables, at: Id, to: Id, hops: nat) -> (path: Seq<Id>)
    requires
        tables.wf(),
        component_reaches(tables.components, Some(at), to, hops),
    ensures
        climbs_components(tables.components, path),
        path.len() <= hops,
        path[0] == at,
        path.last() == to,
    decreases hops,
{
    reveal_with_fuel(component_reaches, 2);
    if at == to {
        seq![at]
    } else {
        law_a_component_is_found_where_it_is_held(tables.components, at);
        let held = find_component(tables.components, at)->0;
        let up = held.component.parent->0;
        let rest = lemma_component_walked(tables, up, to, (hops - 1) as nat);
        let path = seq![at] + rest;
        assert forall|i: int, j: int|
            0 <= i && j == i + 1 && j < path.len() implies component_under(
            tables.components,
            #[trigger] path[i],
            #[trigger] path[j],
        ) by {
            assert(path[j] == rest[j - 1]);
            if i == 0 {
                let k = choose|k: int| 0 <= k < tables.components.len() && tables.components[k] == held;
                assert(tables.components[k].component.comp == path[0]);
            } else {
                assert(path[i] == rest[i - 1]);
            }
        }
        path
    }
}

/// What is picked out of the first signals is picked in order, and is exactly
/// what is asked for.
proof fn lemma_chosen(tables: Tables, sel: Seq<Sel>, n: int)
    requires
        ascending_ids(signal_ids(tables.signals)),
        0 <= n <= tables.signals.len(),
    ensures
        forall|i: int|
            #![trigger chosen(tables, sel, n)[i]]
            0 <= i < chosen(tables, sel, n).len() ==> {
                &&& tables.signals.contains(chosen(tables, sel, n)[i])
                &&& asked_for(tables, sel, chosen(tables, sel, n)[i])
                &&& chosen(tables, sel, n)[i].sig@ <= tables.signals[n - 1].sig@
            },
        forall|k: int|
            #![trigger tables.signals[k]]
            0 <= k < n && asked_for(tables, sel, tables.signals[k]) ==> chosen(
                tables,
                sel,
                n,
            ).contains(tables.signals[k]),
        ascending_ids(signal_ids(chosen(tables, sel, n))),
    decreases n,
{
    let signals = tables.signals;
    let after = chosen(tables, sel, n);
    if n > 0 {
        lemma_chosen(tables, sel, n - 1);
        let before = chosen(tables, sel, n - 1);
        let last = signals[n - 1];
        if n > 1 {
            assert(signal_ids(signals)[n - 2] < signal_ids(signals)[n - 1]);
        }
        assert forall|i: int| 0 <= i < before.len() implies (#[trigger] before[i]).sig@
            < last.sig@ by {}
        if asked_for(tables, sel, last) {
            assert(after == before.push(last));
            assert forall|i: int| #![trigger after[i]] 0 <= i < after.len() implies {
                &&& signals.contains(after[i])
                &&& asked_for(tables, sel, after[i])
                &&& after[i].sig@ <= last.sig@
            } by {
                if i < before.len() {
                    assert(after[i] == before[i]);
                } else {
                    assert(after[i] == last);
                }
            }
            assert forall|k: int|
                #![trigger signals[k]]
                0 <= k < n && asked_for(tables, sel, signals[k]) implies after.contains(
                signals[k],
            ) by {
                if k < n - 1 {
                    assert(before.contains(signals[k]));
                    let i = choose|i: int| 0 <= i < before.len() && before[i] == signals[k];
                    assert(after[i] == signals[k]);
                } else {
                    assert(after[before.len() as int] == last);
                }
            }
            let ids = signal_ids(after);
            assert forall|i: int, j: int| 0 <= i < j < ids.len() implies ids[i] < ids[j] by {
                assert(after[i] == before[i]);
                if j < before.len() {
                    assert(after[j] == before[j]);
                    assert(signal_ids(before)[i] < signal_ids(before)[j]);
                }
            }
        } else {
            assert(after == before);
        }
    }
}

/// What one selector asks for is what it selects.
proof fn lemma_asked_by_one(tables: Tables, sel: Sel, signal: SiteSignal)
    ensures
        asked_for(tables, seq![sel], signal) == selected_by(tables, sel, signal),
{
    let one = seq![sel];
    assert(one[0] == sel);
    if selected_by(tables, sel, signal) {
        assert(selected_by(tables, one[0], signal));
    }
}

/// A signal held is selected by one selector exactly when that selector selects
/// it.
proof fn lemma_selected_by_one(tables: Tables, sel: Sel, k: int)
    requires
        tables.wf(),
        0 <= k < tables.signals.len(),
    ensures
        selection(tables, seq![sel]).contains(tables.signals[k]) <==> selected_by(
            tables,
            sel,
            tables.signals[k],
        ),
{
    let picked = selection(tables, seq![sel]);
    lemma_chosen(tables, seq![sel], tables.signals.len() as int);
    lemma_asked_by_one(tables, sel, tables.signals[k]);
    if picked.contains(tables.signals[k]) {
        let i = choose|i: int| 0 <= i < picked.len() && picked[i] == tables.signals[k];
        assert(asked_for(tables, seq![sel], picked[i]));
    }
}

/// A request that names a held signal selects exactly that signal.
pub proof fn law_a_signal_named_is_the_one_selected(tables: Tables, k: int)
    requires
        tables.wf(),
        0 <= k < tables.signals.len(),
    ensures
        selection(tables, seq![Sel::Sig(tables.signals[k].sig)]) == seq![tables.signals[k]],
{
    let sel = Sel::Sig(tables.signals[k].sig);
    let picked = selection(tables, seq![sel]);
    let n = tables.signals.len() as int;
    lemma_chosen(tables, seq![sel], n);
    lemma_selected_by_one(tables, sel, k);
    let all = signal_ids(tables.signals);
    assert forall|i: int| 0 <= i < picked.len() implies picked[i] == tables.signals[k] by {
        lemma_asked_by_one(tables, sel, picked[i]);
        assert(asked_for(tables, seq![sel], picked[i]));
        let j = choose|j: int| 0 <= j < n && tables.signals[j] == picked[i];
        assert(all[j] == all[k]);
        if j < k {
            assert(all[j] < all[k]);
        } else if k < j {
            assert(all[k] < all[j]);
        }
    }
    assert(picked.contains(tables.signals[k]));
    if picked.len() > 1 {
        let ids = signal_ids(picked);
        assert(ids[0] < ids[1]);
        assert(picked[0] == picked[1]);
    }
    assert(picked =~= seq![tables.signals[k]]);
}

/// A request that names a device selects the signals of that device and of
/// every device from which a walk of at most four parents reaches it, and no
/// other; so at the least every signal declared on it.
pub proof fn law_a_device_named_selects_what_is_below_it(tables: Tables, dev: Id, k: int)
    requires
        tables.wf(),
        0 <= k < tables.signals.len(),
    ensures
        selection(tables, seq![Sel::Dev(dev)]).contains(tables.signals[k]) <==> exists|
            path: Seq<u16>,
        |
            {
                &&& #[trigger] climbs_devices(tables.devices, path)
                &&& path.len() <= 5
                &&& path[0] == tables.signals[k].dev
                &&& path.last() == dev@
            },
        tables.signals[k].dev == dev@ ==> selection(tables, seq![Sel::Dev(dev)]).contains(
            tables.signals[k],
        ),
{
    let signal = tables.signals[k];
    lemma_selected_by_one(tables, Sel::Dev(dev), k);
    assert forall|path: Seq<u16>|
        #[trigger] climbs_devices(tables.devices, path) && path.len() <= 5 && path[0] == signal.dev
            && path.last() == dev@ implies selected_by(tables, Sel::Dev(dev), signal) by {
        lemma_device_walk(tables, path, 5);
    }
    if selected_by(tables, Sel::Dev(dev), signal) {
        let path = lemma_device_walked(tables, signal.dev, dev@, 5);
        assert(climbs_devices(tables.devices, path));
    }
    if signal.dev == dev@ {
        let path = seq![signal.dev];
        assert(climbs_devices(tables.devices, path));
    }
}

/// A request that names a component selects the signals at that component and
/// at every component from which a walk of at most four parents reaches it, and
/// no other; a signal at no component is selected by none.
pub proof fn law_a_component_named_selects_what_is_below_it(tables: Tables, comp: Id, k: int)
    requires
        tables.wf(),
        0 <= k < tables.signals.len(),
    ensures
        selection(tables, seq![Sel::Comp(comp)]).contains(tables.signals[k]) <==> exists|
            path: Seq<Id>,
        |
            {
                &&& #[trigger] climbs_components(tables.components, path)
                &&& path.len() <= 5
                &&& tables.signals[k].comp == Some(path[0])
                &&& path.last() == comp
            },
        tables.signals[k].comp == Some(comp) ==> selection(tables, seq![Sel::Comp(comp)]).contains(
            tables.signals[k],
        ),
{
    let signal = tables.signals[k];
    lemma_selected_by_one(tables, Sel::Comp(comp), k);
    assert forall|path: Seq<Id>|
        #[trigger] climbs_components(tables.components, path) && path.len() <= 5 && signal.comp
            == Some(path[0]) && path.last() == comp implies selected_by(
        tables,
        Sel::Comp(comp),
        signal,
    ) by {
        lemma_component_walk(tables, path, 5);
    }
    if selected_by(tables, Sel::Comp(comp), signal) {
        let path = lemma_component_walked(tables, signal.comp->0, comp, 5);
        assert(climbs_components(tables.components, path));
    }
    if signal.comp == Some(comp) {
        let path = seq![comp];
        assert(climbs_components(tables.components, path));
    }
}

/// A request that names nothing selects every signal, in order.
pub proof fn law_a_request_that_names_nothing_selects_all(tables: Tables)
    ensures
        selection(tables, Seq::empty()) == tables.signals,
{
    let n = tables.signals.len() as int;
    lemma_all(tables, n);
    assert(tables.signals.take(n) =~= tables.signals);
}

/// The first signals, each of them.
proof fn lemma_all(tables: Tables, n: int)
    requires
        0 <= n <= tables.signals.len(),
    ensures
        chosen(tables, Seq::empty(), n) == tables.signals.take(n),
    decreases n,
{
    if n > 0 {
        lemma_all(tables, n - 1);
        assert(tables.signals.take(n) =~= tables.signals.take(n - 1).push(tables.signals[n - 1]));
    } else {
        assert(tables.signals.take(0) =~= Seq::empty());
    }
}

/// Two lists of selectors together select what either does, each signal once
/// and in order.
pub proof fn law_selectors_together_select_what_either_does(
    tables: Tables,
    a: Seq<Sel>,
    b: Seq<Sel>,
    signal: SiteSignal,
)
    requires
        tables.wf(),
        a.len() > 0,
        b.len() > 0,
    ensures
        selection(tables, a + b).contains(signal) <==> selection(tables, a).contains(signal)
            || selection(tables, b).contains(signal),
        ascending_ids(signal_ids(selection(tables, a + b))),
{
    let n = tables.signals.len() as int;
    let both = a + b;
    lemma_chosen(tables, a, n);
    lemma_chosen(tables, b, n);
    lemma_chosen(tables, both, n);
    lemma_asked_by_either(tables, a, b, signal);
    lemma_in_selection(tables, a, signal);
    lemma_in_selection(tables, b, signal);
    lemma_in_selection(tables, both, signal);
}

/// A signal is in a selection when it is held and asked for.
proof fn lemma_in_selection(tables: Tables, sel: Seq<Sel>, signal: SiteSignal)
    requires
        ascending_ids(signal_ids(tables.signals)),
    ensures
        selection(tables, sel).contains(signal) <==> tables.signals.contains(signal) && asked_for(
            tables,
            sel,
            signal,
        ),
{
    let picked = selection(tables, sel);
    lemma_chosen(tables, sel, tables.signals.len() as int);
    if picked.contains(signal) {
        let i = choose|i: int| 0 <= i < picked.len() && picked[i] == signal;
        assert(asked_for(tables, sel, picked[i]));
    }
    if tables.signals.contains(signal) && asked_for(tables, sel, signal) {
        let k = choose|k: int| 0 <= k < tables.signals.len() && tables.signals[k] == signal;
        assert(picked.contains(tables.signals[k]));
    }
}

/// Two lists together ask for what either does.
proof fn lemma_asked_by_either(tables: Tables, a: Seq<Sel>, b: Seq<Sel>, signal: SiteSignal)
    requires
        a.len() > 0,
        b.len() > 0,
    ensures
        asked_for(tables, a + b, signal) <==> asked_for(tables, a, signal) || asked_for(
            tables,
            b,
            signal,
        ),
{
    let both = a + b;
    if asked_for(tables, a, signal) {
        let i = choose|i: int| 0 <= i < a.len() && selected_by(tables, #[trigger] a[i], signal);
        assert(both[i] == a[i]);
    }
    if asked_for(tables, b, signal) {
        let i = choose|i: int| 0 <= i < b.len() && selected_by(tables, #[trigger] b[i], signal);
        assert(both[a.len() + i] == b[i]);
    }
    if asked_for(tables, both, signal) {
        let i = choose|i: int|
            0 <= i < both.len() && selected_by(tables, #[trigger] both[i], signal);
        if i < a.len() {
            assert(both[i] == a[i]);
        } else {
            assert(both[i] == b[i - a.len()]);
        }
    }
}

/// Whether a selector names a row that is held.
pub open spec fn names_a_row(tables: Tables, sel: Sel) -> bool {
    match sel {
        Sel::Dev(dev) => exists|i: int|
            0 <= i < tables.devices.len() && (#[trigger] tables.devices[i]).device.dev == dev@,
        Sel::Comp(comp) => exists|i: int|
            0 <= i < tables.components.len() && (#[trigger] tables.components[i]).component.comp
                == comp,
        Sel::Sig(sig) => exists|i: int|
            0 <= i < tables.signals.len() && (#[trigger] tables.signals[i]).sig == sig,
    }
}

/// A request for readings is refused for its reason and no other: a revision
/// that is not the one held; then a selector that names no row; then a cursor
/// past every signal selected.
pub proof fn law_a_request_for_readings_is_refused_for_its_reason(
    tables: Tables,
    request: ReadSignals,
)
    requires
        tables.wf(),
    ensures
        ({
            let outcome = readings_outcome(tables, request);
            let stale = request.rev != 0 && request.rev != tables.rev;
            let astray = exists|i: int|
                0 <= i < request.sel@.len() && !names_a_row(tables, #[trigger] request.sel@[i]);
            let past = request.from != 0 && forall|s: SiteSignal|
                #[trigger]
                selection(tables, request.sel@).contains(s) ==> s.sig@ < request.from;
            &&& outcome == ReadingsOutcome::Superseded <==> stale
            &&& outcome == ReadingsOutcome::UnknownSelector <==> !stale && astray
            &&& outcome == ReadingsOutcome::OutOfRange <==> !stale && !astray && past
            &&& outcome == ReadingsOutcome::Answered <==> !stale && !astray && !past
        }),
{
    let sel = request.sel@;
    let picked = selection(tables, sel);
    lemma_chosen(tables, sel, tables.signals.len() as int);
    assert forall|i: int| 0 <= i < sel.len() implies crate::topology::known(
        tables,
        #[trigger] sel[i],
    ) == names_a_row(tables, sel[i]) by {
        match sel[i] {
            Sel::Dev(dev) => law_a_device_is_found_where_it_is_held(tables.devices, dev@),
            Sel::Comp(comp) => law_a_component_is_found_where_it_is_held(tables.components, comp),
            Sel::Sig(sig) => law_a_signal_is_found_where_it_is_held(tables.signals, sig),
        }
    }
    if picked.len() > 0 {
        assert(picked.contains(picked.last()));
        assert forall|s: SiteSignal| #[trigger] picked.contains(s) implies s.sig@
            <= picked.last().sig@ by {
            let i = choose|i: int| 0 <= i < picked.len() && picked[i] == s;
            let ids = signal_ids(picked);
            if i < picked.len() - 1 {
                assert(ids[i] < ids[picked.len() - 1]);
            }
        }
    }
}

/// The bytes a signal's sample at `now` goes out as.
pub open spec fn sample_bytes(slots: Seq<Slot>, sig: Id, now: Tick) -> Seq<u8> {
    let sample = sampled(slots, sig, now)->Ok_0;
    sample_image(sample.sig@, sample.q.spec_byte(), sample.value, sample.age)
}

/// Signals below the cursor are skipped.
proof fn lemma_skips_below(
    slots: Seq<Slot>,
    picked: Seq<SiteSignal>,
    now: Tick,
    from: u16,
    page: Paged,
    at: int,
)
    requires
        0 <= at <= picked.len(),
        forall|i: int| 0 <= i < at ==> (#[trigger] picked[i]).sig@ < from,
    ensures
        gathered(slots, picked, now, from, page) == gathered(
            slots,
            picked.skip(at),
            now,
            from,
            page,
        ),
    decreases at,
{
    if at == 0 {
        assert(picked.skip(0) =~= picked);
    } else {
        let rest = picked.skip(1);
        assert forall|i: int| 0 <= i < at - 1 implies (#[trigger] rest[i]).sig@ < from by {
            assert(rest[i] == picked[i + 1]);
        }
        lemma_skips_below(slots, rest, now, from, page, at - 1);
        assert(rest.skip(at - 1) =~= picked.skip(at));
        assert(picked[0].sig@ < from);
    }
}

/// A page takes the signals from the cursor on, one after another.
proof fn lemma_gathers(
    slots: Seq<Slot>,
    picked: Seq<SiteSignal>,
    now: Tick,
    from: u16,
    page: Paged,
) -> (n: int)
    requires
        forall|i: int| 0 <= i < picked.len() ==> (#[trigger] picked[i]).sig@ >= from,
        page.next == 0,
    ensures
        0 <= n <= picked.len(),
        forall|i: int| 0 <= i < n ==> sampled(slots, (#[trigger] picked[i]).sig, now) is Ok,
        match gathered(slots, picked, now, from, page) {
            Ok(full) => {
                &&& full.rows.len() == page.rows.len() + n
                &&& full.rows.take(page.rows.len() as int) == page.rows
                &&& forall|i: int|
                    0 <= i < n ==> full.rows[page.rows.len() + i] == sample_bytes(
                        slots,
                        (#[trigger] picked[i]).sig,
                        now,
                    )
                &&& n == picked.len() ==> full.next == 0
                &&& n < picked.len() ==> {
                    &&& full.next == picked[n].sig@
                    &&& sampled(slots, picked[n].sig, now) is Ok
                    &&& !sample_fits(full.rows, sample_bytes(slots, picked[n].sig, now))
                }
            },
            Err(why) => n < picked.len() && sampled(slots, picked[n].sig, now) == Err::<
                crate::reading::Sample,
                SignalError,
            >(why),
        },
    decreases picked.len(),
{
    if picked.len() == 0 {
        assert(page.rows.take(page.rows.len() as int) =~= page.rows);
        0
    } else {
        match sampled(slots, picked[0].sig, now) {
            Err(_) => 0,
            Ok(sample) => {
                if crate::signals::registered(slots, picked[0].sig) {
                    let k = crate::signals::place(slots, picked[0].sig);
                    assert(slots[k].sig == picked[0].sig);
                }
                assert(sample.sig == picked[0].sig);
                let bytes = sample_bytes(slots, picked[0].sig, now);
                if sample_fits(page.rows, bytes) {
                    let rest = picked.skip(1);
                    let more = Paged { rows: page.rows.push(bytes), next: page.next };
                    assert forall|i: int| 0 <= i < rest.len() implies (#[trigger] rest[i]).sig@
                        >= from by {
                        assert(rest[i] == picked[i + 1]);
                    }
                    let m = lemma_gathers(slots, rest, now, from, more);
                    let n = m + 1;
                    assert forall|i: int| 0 <= i < n implies sampled(
                        slots,
                        (#[trigger] picked[i]).sig,
                        now,
                    ) is Ok by {
                        if i > 0 {
                            assert(picked[i] == rest[i - 1]);
                        }
                    }
                    if n < picked.len() {
                        assert(picked[n] == rest[m]);
                    }
                    if let Ok(full) = gathered(slots, picked, now, from, page) {
                        assert(full.rows.take(page.rows.len() as int) =~= page.rows) by {
                            let front = full.rows.take(more.rows.len() as int);
                            assert(front == more.rows);
                            assert forall|i: int| 0 <= i < page.rows.len() implies full.rows[i]
                                == page.rows[i] by {
                                assert(front[i] == more.rows[i]);
                            }
                        }
                        assert forall|i: int| 0 <= i < n implies full.rows[page.rows.len() + i]
                            == sample_bytes(slots, (#[trigger] picked[i]).sig, now) by {
                            if i == 0 {
                                let front = full.rows.take(more.rows.len() as int);
                                assert(front[page.rows.len() as int] == bytes);
                            } else {
                                assert(picked[i] == rest[i - 1]);
                                assert(full.rows[more.rows.len() + (i - 1)] == sample_bytes(
                                    slots,
                                    rest[i - 1].sig,
                                    now,
                                ));
                            }
                        }
                    }
                    n
                } else {
                    assert(page.rows.take(page.rows.len() as int) =~= page.rows);
                    0
                }
            },
        }
    }
}

/// Whether a page holds the samples of `picked` from the `at`-th up to the
/// `n`-th, each as its signal stands at `now` and none left out between, and
/// stops with the number of the `n`-th, or zero at the end; or the sample of
/// the `n`-th is refused, and the page with it.
pub open spec fn reads_up_to(
    slots: Seq<Slot>,
    picked: Seq<SiteSignal>,
    now: Tick,
    at: int,
    page: Result<Paged, SignalError>,
    n: int,
) -> bool {
    &&& at <= n <= picked.len()
    &&& forall|i: int| at <= i < n ==> sampled(slots, (#[trigger] picked[i]).sig, now) is Ok
    &&& match page {
        Ok(full) => {
            &&& full.rows.len() == n - at
            &&& forall|i: int|
                at <= i < n ==> full.rows[i - at] == sample_bytes(
                    slots,
                    (#[trigger] picked[i]).sig,
                    now,
                )
            &&& n == picked.len() ==> full.next == 0
            &&& n < picked.len() ==> full.next == picked[n].sig@ && !sample_fits(
                full.rows,
                sample_bytes(slots, picked[n].sig, now),
            )
        },
        Err(why) => n < picked.len() && sampled(slots, picked[n].sig, now) == Err::<
            crate::reading::Sample,
            SignalError,
        >(why),
    }
}

/// A page of readings holds the samples of the selected signals from its cursor
/// on, and stops at the first it has no room for. So following the cursor reads
/// every selected signal once. It fails only where a signal's own sample does,
/// and then as that does.
pub proof fn law_a_page_of_readings_leaves_nothing_out(
    tables: Tables,
    slots: Seq<Slot>,
    sel: Seq<Sel>,
    now: Tick,
    from: u16,
    at: int,
)
    requires
        tables.wf(),
        at == 0 && from == 0 || 0 <= at < selection(tables, sel).len() && from == selection(
            tables,
            sel,
        )[at].sig@,
    ensures
        exists|n: int|
            reads_up_to(
                slots,
                selection(tables, sel),
                now,
                at,
                gathered(
                    slots,
                    selection(tables, sel),
                    now,
                    from,
                    Paged { rows: Seq::empty(), next: 0 },
                ),
                n,
            ),
{
    lemma_chosen(tables, sel, tables.signals.len() as int);
    let n = lemma_page_of(slots, selection(tables, sel), now, from, at);
}

/// A page from the `at`-th of signals that ascend.
proof fn lemma_page_of(
    slots: Seq<Slot>,
    picked: Seq<SiteSignal>,
    now: Tick,
    from: u16,
    at: int,
) -> (n: int)
    requires
        ascending_ids(signal_ids(picked)),
        at == 0 && from == 0 || 0 <= at < picked.len() && from == picked[at].sig@,
    ensures
        reads_up_to(
            slots,
            picked,
            now,
            at,
            gathered(slots, picked, now, from, Paged { rows: Seq::empty(), next: 0 }),
            n,
        ),
{
    let empty = Paged { rows: Seq::empty(), next: 0 };
    let page = gathered(slots, picked, now, from, empty);
    let ids = signal_ids(picked);
    assert forall|i: int| 0 <= i < at implies (#[trigger] picked[i]).sig@ < from by {
        assert(ids[i] < ids[at]);
    }
    lemma_skips_below(slots, picked, now, from, empty, at);
    let rest = picked.skip(at);
    assert forall|i: int| 0 <= i < rest.len() implies (#[trigger] rest[i]).sig@ >= from by {
        assert(rest[i] == picked[at + i]);
        if i > 0 {
            assert(ids[at] < ids[at + i]);
        }
    }
    let m = lemma_gathers(slots, rest, now, from, empty);
    let n = at + m;
    assert forall|i: int| at <= i < n implies sampled(
        slots,
        (#[trigger] picked[i]).sig,
        now,
    ) is Ok by {
        assert(picked[i] == rest[i - at]);
    }
    if n < picked.len() {
        assert(picked[n] == rest[m]);
    }
    if let Ok(full) = page {
        assert forall|i: int| at <= i < n implies full.rows[i - at] == sample_bytes(
            slots,
            (#[trigger] picked[i]).sig,
            now,
        ) by {
            assert(picked[i] == rest[i - at]);
            assert(full.rows[empty.rows.len() + (i - at)] == sample_bytes(
                slots,
                rest[i - at].sig,
                now,
            ));
        }
    }
    n
}

} // verus!
