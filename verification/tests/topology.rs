//! The site's descriptors: batches taken whole, and pages read back.

use km43::{CborReader, InventoryHeader, TOPO_DIGEST_LABEL};
use o89_core::reading::Id;
use o89_core::signals::Limits;
use o89_core::site_rows::{
    ComponentRole, Descriptor, DeviceAddress, DeviceRole, Dialect, MeasurementPoint, MetricKind,
    Product, ReadInventory, RowKind, Sel, SignalDomain, SiteBus, SiteComponent, SiteDevice,
    SiteSignal, TopologyChangeReason, Transport, Vtype,
};
use o89_core::tick::Millis;
use o89_core::topology::{
    reported as hello_report, Topology, TopologyError, CONCERN_ROWS, SITE_BUSES, SITE_COMPONENTS,
    SITE_DEVICES, SITE_SIGNALS,
};
use sha2::{Digest, Sha256};

fn limits() -> Limits {
    Limits::new(Millis::from_millis(60_000), None).expect("a limit")
}

fn bus(bus: u8, transport: Transport) -> Descriptor {
    Descriptor::Bus(SiteBus {
        bus,
        transport,
        rate: None,
    })
}

fn device(dev: u16, bus: u8, addr: Option<u8>, parent: Option<u16>) -> Descriptor {
    Descriptor::Device(SiteDevice {
        dev,
        bus,
        addr: addr.and_then(|addr| DeviceAddress::new(&[addr])),
        product: Product(0x0101),
        dialect: Dialect(0x0001),
        role: DeviceRole(0x0001),
        parent,
    })
}

/// A DC voltage on `dev`, told apart from its neighbours by `point`.
fn signal(sig: u16, dev: u16) -> Descriptor {
    Descriptor::Signal(SiteSignal {
        sig: Id::new(sig).expect("non-zero"),
        dev,
        comp: None,
        kind: MetricKind(km43::MetricKind::DC_VOLTAGE.0),
        vtype: Vtype::Gauge,
        domain: SignalDomain::Live,
        point: Some(MeasurementPoint(sig)),
        dir: None,
        esp: None,
        limits: limits(),
    })
}

/// Bus 1 with one charger at address 1, and `signals` signals on it.
fn site(signals: u16) -> Topology {
    let mut topology = Topology::new();
    let mut batch = [bus(1, Transport::Rs485); 2 + SITE_SIGNALS];
    batch[1] = device(1, 1, Some(1), None);
    for sig in 1..=signals {
        batch[usize::from(sig) + 1] = signal(sig, 1);
    }
    topology
        .apply(
            TopologyChangeReason::Boot,
            &batch[..usize::from(signals) + 2],
        )
        .expect("a valid site");
    topology
}

type Body = ([u8; km43::INNER_BODY_BYTES], usize);

fn read(topology: &Topology, rev: u32, what: u8, from: u16) -> (InventoryHeader, Body) {
    let mut dst = [0u8; km43::INNER_BODY_BYTES];
    let len = topology
        .answer(
            &ReadInventory {
                rev,
                what,
                from,
                dev: None,
            },
            &mut dst,
        )
        .expect("answers");
    (
        InventoryHeader::decode(&dst[..len]).expect("a client reads it"),
        (dst, len),
    )
}

/// Hash the rows array of a page, row by row, as a client receives them.
fn absorb_rows(body: &[u8], hash: &mut Sha256) {
    let mut reader = CborReader::new(body);
    let pairs = reader.map().expect("a map");
    for _ in 0..pairs {
        if reader.key().expect("a key") == 3 {
            let n = reader.array().expect("rows");
            for _ in 0..n {
                hash.update(reader.raw().expect("a row"));
            }
        } else {
            reader.skip().expect("skips");
        }
    }
}

#[test]
fn p_213_the_boot_moves_the_revision_to_one_and_counts_what_the_tables_hold() {
    let mut topology = Topology::new();
    assert_eq!(topology.rev(), 0);
    let changed = topology
        .apply(
            TopologyChangeReason::Boot,
            &[
                bus(1, Transport::Rs485),
                device(1, 1, Some(1), None),
                signal(1, 1),
            ],
        )
        .expect("applies");
    assert_eq!(topology.rev(), 1);
    assert_eq!(changed.rev, 1);
    assert_eq!((changed.added, changed.removed), (3, 0));
    // A later write counts what it added, not the table.
    let changed = topology
        .apply(TopologyChangeReason::ConfigWrite, &[signal(2, 1)])
        .expect("applies");
    assert_eq!((changed.rev, changed.added), (2, 1));
}

#[test]
fn p_149_a_refused_batch_leaves_the_rows_the_revision_and_the_digest() {
    let mut topology = site(2);
    let (rev, digest) = (topology.rev(), topology.digest());
    // A good row, then one on a device that does not exist.
    let refused = topology.apply(
        TopologyChangeReason::ConfigWrite,
        &[signal(3, 1), signal(4, 9)],
    );
    assert_eq!(refused, Err(TopologyError::NoSuchDevice(9)));
    assert_eq!((topology.rev(), topology.digest()), (rev, digest));
    assert!(!topology.has_signal(Id::new(3).expect("non-zero")));
}

#[test]
fn p_148_p_149_the_digest_moves_with_any_row_and_is_p_148s_hash_of_the_rows_as_sent() {
    let a = site(3);
    let b = site(3);
    assert_eq!(
        a.digest(),
        b.digest(),
        "same rows, same revision, same digest"
    );
    let c = site(4);
    assert_ne!(a.digest(), c.digest());
    let mut hash = Sha256::new();
    hash.update(TOPO_DIGEST_LABEL);
    hash.update(a.rev().to_be_bytes());
    for what in [1, 2, 3, 4] {
        let (header, (body, len)) = read(&a, 0, what, 0);
        assert_eq!(header.digest, Some(a.digest()), "the last page carries it");
        absorb_rows(&body[..len], &mut hash);
    }
    assert_eq!(hash.finalize()[..8], a.digest());
}

#[test]
fn p_147_an_empty_kind_from_the_beginning_is_answered_and_a_cursor_on_it_is_out_of_range() {
    let topology = site(0);
    let (header, _) = read(&topology, 0, RowKind::Signal.number(), 0);
    assert_eq!(header.outcome, km43::InventoryOutcome::Ok);
    assert_eq!((header.rows, header.next, header.total), (0, 0, 0));
    let (header, _) = read(&topology, 0, RowKind::Component.number(), 0);
    assert_eq!((header.outcome, header.rows), (km43::InventoryOutcome::Ok, 0));
    let (header, _) = read(&topology, 0, RowKind::Signal.number(), 1);
    assert_eq!(header.outcome, km43::InventoryOutcome::OutOfRange);
}

#[test]
fn p_208_one_row_over_a_page_resumes_at_that_row_and_the_digest_rides_the_last_page() {
    let what = RowKind::Signal.number();
    // A page of these rows ends at the byte cap, below the row cap of 48.
    let (full, _) = read(&site(64), 0, what, 0);
    let page = u16::try_from(full.rows).expect("fits");
    assert!(full.rows < km43::MAX_INVENTORY_PAGE_ROWS && full.next == page + 1);
    // Exactly one page: no cursor, and the digest.
    let one = site(page);
    let (whole, _) = read(&one, 0, what, 0);
    assert_eq!((whole.rows, whole.next), (full.rows, 0));
    assert_eq!(whole.digest, Some(one.digest()));
    // One row over: the next page starts at that row and ends the kind.
    let over = site(page + 1);
    let (first, _) = read(&over, over.rev(), what, 0);
    assert_eq!(
        (first.rows, first.next, first.total),
        (full.rows, page + 1, page + 1)
    );
    assert_eq!(first.digest, None, "no digest mid-walk");
    let (second, _) = read(&over, over.rev(), what, first.next);
    assert_eq!((second.rows, second.next), (1, 0));
    assert_eq!(second.digest, Some(over.digest()));
}

#[test]
fn p_145_p_146_p_147_a_stale_revision_an_unknown_kind_and_a_cursor_past_the_end_answer_nothing()
{
    let topology = site(3);
    let (header, _) = read(&topology, topology.rev().wrapping_add(7), 4, 0);
    assert_eq!(header.outcome, km43::InventoryOutcome::Superseded);
    assert_eq!(
        (header.rev, header.rows, header.next),
        (topology.rev(), 0, 0)
    );
    let (header, _) = read(&topology, 0, 9, 0);
    assert_eq!(header.outcome, km43::InventoryOutcome::UnknownKind);
    let (header, _) = read(&topology, 0, 4, 4);
    assert_eq!(
        (header.outcome, header.rows, header.digest),
        (km43::InventoryOutcome::OutOfRange, 0, None)
    );
}

#[test]
fn p_202_an_addressed_device_needs_an_address_of_its_own_on_its_bus() {
    let mut topology = site(0);
    let rev = topology.rev();
    assert_eq!(
        topology.apply(
            TopologyChangeReason::ConfigWrite,
            &[device(2, 1, None, None)]
        ),
        Err(TopologyError::Address(2))
    );
    assert_eq!(
        topology.apply(
            TopologyChangeReason::ConfigWrite,
            &[device(2, 1, Some(1), None)]
        ),
        Err(TopologyError::Address(2))
    );
    assert_eq!(topology.rev(), rev);
    // The same address on another bus, and none on a bus with no addresses.
    topology
        .apply(
            TopologyChangeReason::ConfigWrite,
            &[
                bus(2, Transport::Rs485),
                device(2, 2, Some(1), None),
                bus(3, Transport::VeDirect),
                device(3, 3, None, None),
            ],
        )
        .expect("distinct buses");
}

#[test]
fn p_187_a_parent_the_table_does_not_hold_or_a_chain_past_the_depth_is_refused() {
    let mut topology = site(0);
    assert_eq!(
        topology.apply(
            TopologyChangeReason::ConfigWrite,
            &[device(2, 1, Some(2), Some(9))]
        ),
        Err(TopologyError::NoSuchDevice(9))
    );
    // Three generations below device 1 is the depth of four.
    topology
        .apply(
            TopologyChangeReason::SubDeviceAdopted,
            &[
                device(2, 1, Some(2), Some(1)),
                device(3, 1, Some(3), Some(2)),
                device(4, 1, Some(4), Some(3)),
            ],
        )
        .expect("four deep");
    assert_eq!(
        topology.apply(
            TopologyChangeReason::SubDeviceAdopted,
            &[device(5, 1, Some(5), Some(4))]
        ),
        Err(TopologyError::TooDeep(5))
    );
}

#[test]
fn p_207_two_signals_measuring_the_same_thing_collide_and_neither_repeats_an_id() {
    let mut topology = site(1);
    let mut twin = signal(2, 1);
    if let Descriptor::Signal(sig) = &mut twin {
        sig.point = Some(MeasurementPoint(1));
    }
    assert_eq!(
        topology.apply(TopologyChangeReason::ConfigWrite, &[twin]),
        Err(TopologyError::Collides(Id::new(2).expect("non-zero")))
    );
    assert_eq!(
        topology.apply(TopologyChangeReason::ConfigWrite, &[signal(1, 1)]),
        Err(TopologyError::Duplicate(RowKind::Signal, 1))
    );
}

#[test]
fn p_005_a_full_table_refuses_the_next_row_and_evicts_nothing() {
    let mut topology = Topology::new();
    let mut buses = [bus(0, Transport::Onewire); SITE_BUSES];
    for (n, slot) in buses.iter_mut().enumerate() {
        *slot = bus(u8::try_from(n).expect("fits"), Transport::Onewire);
    }
    topology
        .apply(TopologyChangeReason::Boot, &buses)
        .expect("every slot");
    let rev = topology.rev();
    assert_eq!(
        topology.apply(
            TopologyChangeReason::ConfigWrite,
            &[bus(200, Transport::Can)]
        ),
        Err(TopologyError::Full(RowKind::Bus))
    );
    assert_eq!(topology.rev(), rev);
    assert_eq!(
        topology.count(RowKind::Bus),
        u16::try_from(SITE_BUSES).expect("fits")
    );
}

#[test]
fn p_198_a_device_selector_reaches_its_sub_devices_and_no_further() {
    let mut topology = site(1);
    topology
        .apply(
            TopologyChangeReason::SubDeviceAdopted,
            &[
                device(2, 1, Some(2), Some(1)),
                signal(2, 2),
                device(3, 1, Some(3), None),
                signal(3, 3),
            ],
        )
        .expect("applies");
    let dev = |n| Sel::Dev(Id::new(n).expect("non-zero"));
    let selected = |sel| {
        let mut out = [0u16; 3];
        for (slot, signal) in out.iter_mut().zip(
            topology
                .signals()
                .iter()
                .filter(|signal| topology.selects(sel, signal)),
        ) {
            *slot = signal.sig.get();
        }
        out
    };
    assert_eq!(selected(dev(1)), [1, 2, 0]);
    assert_eq!(selected(dev(2)), [2, 0, 0]);
    assert_eq!(selected(dev(3)), [3, 0, 0]);
    assert!(!topology.knows(dev(9)));
    assert!(!topology.knows(Sel::Comp(Id::new(1).expect("non-zero"))));
}

fn component(cmp: u16, dev: u16, parent: Option<u16>) -> Descriptor {
    Descriptor::Component(SiteComponent {
        comp: Id::new(cmp).expect("non-zero"),
        dev,
        parent: parent.map(|parent| Id::new(parent).expect("non-zero")),
        role: ComponentRole(km43::ComponentRole::BATTERY_BANK.0),
        index: None,
    })
}

fn at_component(sig: u16, dev: u16, cmp: u16) -> Descriptor {
    let mut declared = signal(sig, dev);
    if let Descriptor::Signal(signal) = &mut declared {
        signal.comp = Some(Id::new(cmp).expect("non-zero"));
        // One kind on every side: only `cmp` tells them apart.
        signal.point = None;
    }
    declared
}

#[test]
fn p_207_the_same_quantity_on_two_components_of_one_device_is_two_signals() {
    let mut topology = site(0);
    topology
        .apply(
            TopologyChangeReason::ConfigWrite,
            &[
                component(1, 1, None),
                component(2, 1, None),
                at_component(1, 1, 1),
                at_component(2, 1, 2),
            ],
        )
        .expect("PV and battery sides are different signals");
    assert_eq!(
        topology.apply(TopologyChangeReason::ConfigWrite, &[at_component(3, 1, 2)]),
        Err(TopologyError::Collides(Id::new(3).expect("non-zero")))
    );
    let (header, _) = read(&topology, 0, RowKind::Component.number(), 0);
    assert_eq!(
        (header.outcome, header.rows, header.total),
        (km43::InventoryOutcome::Ok, 2, 2)
    );
}

#[test]
fn p_187_p_200_a_component_belongs_to_its_device_and_its_chain_stays_there() {
    let mut topology = site(0);
    topology
        .apply(
            TopologyChangeReason::ConfigWrite,
            &[
                bus(2, Transport::Can),
                device(2, 2, Some(1), None),
                component(1, 2, None),
            ],
        )
        .expect("applies");
    let rev = topology.rev();
    // A parent on another device, a signal at another device's
    // component, a parent the table does not hold.
    assert_eq!(
        topology.apply(
            TopologyChangeReason::ConfigWrite,
            &[component(2, 1, Some(1))]
        ),
        Err(TopologyError::NoSuchComponent(1))
    );
    assert_eq!(
        topology.apply(TopologyChangeReason::ConfigWrite, &[at_component(1, 1, 1)]),
        Err(TopologyError::NoSuchComponent(1))
    );
    assert_eq!(
        topology.apply(
            TopologyChangeReason::ConfigWrite,
            &[component(3, 2, Some(9))]
        ),
        Err(TopologyError::NoSuchComponent(9))
    );
    assert_eq!(topology.rev(), rev, "refused whole");
    // Four deep is the cap.
    topology
        .apply(
            TopologyChangeReason::ConfigWrite,
            &[
                component(2, 2, Some(1)),
                component(3, 2, Some(2)),
                component(4, 2, Some(3)),
            ],
        )
        .expect("four deep");
    assert_eq!(
        topology.apply(
            TopologyChangeReason::ConfigWrite,
            &[component(5, 2, Some(4))]
        ),
        Err(TopologyError::TooDeep(5))
    );
}

#[test]
fn p_198_a_component_selector_reaches_its_children_and_not_its_device() {
    let mut topology = site(1);
    topology
        .apply(
            TopologyChangeReason::ConfigWrite,
            &[
                component(1, 1, None),
                component(2, 1, Some(1)),
                at_component(2, 1, 1),
                at_component(3, 1, 2),
            ],
        )
        .expect("applies");
    let cmp = |n| Sel::Comp(Id::new(n).expect("non-zero"));
    let selected = |sel| {
        let mut out = [0u16; 3];
        for (slot, signal) in out.iter_mut().zip(
            topology
                .signals()
                .iter()
                .filter(|signal| topology.selects(sel, signal)),
        ) {
            *slot = signal.sig.get();
        }
        out
    };
    assert_eq!(selected(cmp(1)), [2, 3, 0]);
    assert_eq!(selected(cmp(2)), [3, 0, 0]);
    assert!(topology.knows(cmp(2)));
    assert!(!topology.knows(cmp(9)));
}

#[test]
fn p_005_a_full_component_table_refuses_the_next_and_keeps_its_rows() {
    let mut topology = site(0);
    let mut batch = [component(1, 1, None); SITE_COMPONENTS];
    for (n, slot) in (1u16..).zip(batch.iter_mut()) {
        *slot = component(n, 1, None);
    }
    topology
        .apply(TopologyChangeReason::ConfigWrite, &batch)
        .expect("every slot");
    assert_eq!(
        topology.apply(
            TopologyChangeReason::ConfigWrite,
            &[component(200, 1, None)]
        ),
        Err(TopologyError::Full(RowKind::Component))
    );
    assert_eq!(
        usize::from(topology.count(RowKind::Component)),
        SITE_COMPONENTS
    );
}

#[test]
fn p_005_hello_reports_the_caps_this_table_and_the_store_enforce() {
    let topology = site(1);
    let reported = hello_report(topology.rev(), topology.digest());
    assert_eq!(reported.rev, topology.rev());
    assert_eq!(reported.digest, topology.digest());
    assert_eq!(usize::from(reported.signals), SITE_SIGNALS);
    assert_eq!(usize::from(reported.buses), SITE_BUSES);
    assert_eq!(usize::from(reported.devices), SITE_DEVICES);
    assert_eq!(usize::from(reported.components), SITE_COMPONENTS);
    assert_eq!((reported.params, reported.series_elements), (0, 0));
    assert_eq!(usize::from(reported.concerns), CONCERN_ROWS);
}
