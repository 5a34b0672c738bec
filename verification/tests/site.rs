//! The reading plane: what a tick owes, and what a client pages through.

use km43::{PresenceChanged, ReadingsHeader, ReadingsOutcome, SignalQuality, Validity, ValidityChanged};
use o89_core::concern::{
    About, Concern, ConcernChanged, ConcernRaised, ConcernRecord, ConcernState, Condition, ElementAt,
    Reach, Severity, VendorCode,
};
use o89_core::reading::{Id, Provenance, Validity as Held};
use o89_core::signals::{Limits, Observation, SignalError};
use o89_core::site::{
    ConcernAsk, Due, Owed, OwedError, Site, SiteError, Tally, MAX_CONCERN_EVENTS_PER_TICK, RECORD_BODY,
    SWEEP_ENTRIES, TICK_RECORDS, Token,
};
use o89_core::site_rows::{
    Descriptor, DeviceAddress, DeviceRole, Dialect, EventKind, MeasurementPoint, MetricKind,
    Presence, Product, ReadSignals, Sel, SignalDomain, SiteBus, SiteDevice, SiteSignal,
    TopologyChangeReason, Transport, Vtype, CONCERN_CHANGED, CONCERN_RAISED, DEVICE_PRESENCE_CHANGED,
    SIGNAL_VALIDITY_CHANGED, TOPOLOGY_CHANGED,
};
use o89_core::tick::{Millis, Tick};
use o89_core::topology::SITE_SIGNALS;

fn limits() -> Limits {
    Limits::new(Millis::from_millis(60_000), None).expect("a limit")
}

fn bus(bus: u8, transport: Transport) -> Descriptor {
    Descriptor::Bus(SiteBus {
        bus,
        transport,
        rate: None,
    })
}

fn device(dev: u16, bus: u8, addr: Option<u8>, parent: Option<u16>) -> Descriptor {
    Descriptor::Device(SiteDevice {
        dev,
        bus,
        addr: addr.and_then(|addr| DeviceAddress::new(&[addr])),
        product: Product(0x0101),
        dialect: Dialect(0x0001),
        role: DeviceRole(0x0001),
        parent,
    })
}

/// A DC voltage on `dev`, told apart from its neighbours by `point`.
fn signal(sig: u16, dev: u16) -> Descriptor {
    Descriptor::Signal(SiteSignal {
        sig: Id::new(sig).expect("non-zero"),
        dev,
        comp: None,
        kind: MetricKind(km43::MetricKind::DC_VOLTAGE.0),
        vtype: Vtype::Gauge,
        domain: SignalDomain::Live,
        point: Some(MeasurementPoint(sig)),
        dir: None,
        esp: None,
        limits: limits(),
    })
}


fn at(secs: u64) -> Tick {
    Tick::zero()
        .after(Millis::from_millis(secs.checked_mul(1_000).expect("fits")))
        .expect("fits")
}

fn sig(n: u16) -> Id {
    Id::new(n).expect("non-zero")
}

fn reading(value: i32) -> Observation {
    Observation::value(value, Provenance::Measured).expect("a value")
}

/// Bus 1, device 1 at address 1, and signals `1..=signals` on it.
fn site(signals: u16) -> Plane {
    let mut site = Site::new();
    let mut batch = [bus(1, Transport::Rs485); 2 + SITE_SIGNALS];
    batch[1] = device(1, 1, Some(1), None);
    for n in 1..=signals {
        batch[usize::from(n) + 1] = signal(n, 1);
    }
    site.apply(
        TopologyChangeReason::Boot,
        &batch[..usize::from(signals) + 2],
    )
    .expect("a valid site");
    Plane { site, raises: 0 }
}

/// A row entering the concern table, about device 1.
fn raise(rev: u32, cid: u16) -> ConcernRecord {
    ConcernRecord::Raised(ConcernRaised {
        rev,
        concern: Concern {
            cid: sig(cid),
            subject: About {
                dev: sig(1),
                comp: None,
                reach: Reach::Whole,
            },
            cond: Condition(km43::Condition::OVER_VOLTAGE.0),
            sev: Severity::Warning,
            state: ConcernState::Active,
            age: 3,
            since: None,
            code: None,
            seq: 0,
        },
    })
}

/// A site and the concerns its table would raise.
struct Plane {
    site: Site,
    raises: usize,
}

impl Plane {
    fn next_owed(
        &mut self,
        now: Tick,
        seq: u64,
        tally: &mut Tally,
        body: &mut [u8; RECORD_BODY],
    ) -> Option<Owed> {
        let due = match self.site.next_owed(now, seq, tally, body).expect("writes") {
            Due::Concern(ask) => {
                let handed = if self.raises > 0 {
                    self.raises -= 1;
                    Some(raise(ask.rev, self.raises as u16 + 1))
                } else {
                    None
                };
                Site::concern_handed(ask, Ok(handed), tally, body).expect("writes")
            }
            due => due,
        };
        match due {
            Due::Record(owed) => Some(owed),
            Due::Concern(_) | Due::Nothing => None,
        }
    }
}

/// One tick's records: each kind, and the signals the sweep named.
#[derive(Default)]
struct Tick1 {
    kinds: [Option<EventKind>; TICK_RECORDS + 1],
    sigs: [Option<(u16, SignalQuality, SignalQuality)>; SWEEP_ENTRIES],
}

fn tick(site: &mut Plane, now: Tick) -> Tick1 {
    let mut tally = Tally::new();
    let mut body = [0u8; RECORD_BODY];
    let mut out = Tick1::default();
    for kind in out.kinds.iter_mut() {
        let Some(owed) = site.next_owed(now, 1, &mut tally, &mut body) else {
            break;
        };
        *kind = Some(owed.kind);
        if owed.kind == EventKind(SIGNAL_VALIDITY_CHANGED) {
            let (_, entries) = ValidityChanged::decode(&body[..owed.len]).expect("a sweep");
            for (slot, change) in out.sigs.iter_mut().zip(entries) {
                let change = change.expect("an entry");
                *slot = Some((change.sig.get(), change.q, change.prev));
            }
        }
    }
    out
}

fn count(kinds: &[Option<EventKind>], kind: EventKind) -> usize {
    kinds.iter().flatten().filter(|k| **k == kind).count()
}

#[test]
fn p_182_a_tick_with_more_changes_than_fit_carries_the_rest_and_drops_none() {
    let mut site = site(64);
    for n in 1..=64 {
        site.site.write(sig(n), at(1), reading(i32::from(n)))
            .expect("registered");
    }
    let mut seen = [0u8; 65];
    let mut ticks = 0;
    for second in 2..20 {
        let one = tick(&mut site, at(second));
        let sweeps = count(&one.kinds, EventKind(SIGNAL_VALIDITY_CHANGED));
        assert!(sweeps <= 1, "one 0x0102 a tick");
        if sweeps == 0 {
            break;
        }
        ticks += 1;
        for (n, q, prev) in one.sigs.iter().flatten() {
            seen[usize::from(*n)] += 1;
            assert_eq!(q.validity_of(), Validity::Ok);
            assert_eq!(prev.validity_of(), Validity::Initialising);
        }
    }
    assert!(
        seen[1..].iter().all(|n| *n == 1),
        "every signal announced exactly once"
    );
    assert_eq!(ticks, 64usize.div_ceil(SWEEP_ENTRIES));
}

#[test]
fn p_182_p_212_two_tick_boundaries_never_merge_and_prev_is_what_was_announced() {
    let mut site = site(1);
    site.site.write(sig(1), at(1), reading(5)).expect("registered");
    let first = tick(&mut site, at(2));
    let (_, q, _) = first.sigs[0].expect("announced");
    assert_eq!(q.validity_of(), Validity::Ok);
    // Absent, then a sensor fault, before the next tick: one entry, from
    // what the last record said.
    site.site.write(
        sig(1),
        at(3),
        Observation::missing(Held::Absent).expect("absent"),
    )
    .expect("registered");
    site.site.write(
        sig(1),
        at(3),
        Observation::missing(Held::SensorFault).expect("fault"),
    )
    .expect("registered");
    let second = tick(&mut site, at(4));
    assert_eq!(
        second.sigs[0],
        Some((
            1,
            SignalQuality::absent(Validity::SensorFault).expect("q"),
            q
        ))
    );
    assert_eq!(second.sigs[1], None);
    // Nothing moved since: nothing owed.
    assert_eq!(
        count(
            &tick(&mut site, at(5)).kinds,
            EventKind(SIGNAL_VALIDITY_CHANGED)
        ),
        0
    );
}

#[test]
fn p_182_a_signal_that_moves_and_moves_back_between_ticks_owes_nothing() {
    let mut site = site(1);
    site.site.write(sig(1), at(1), reading(5)).expect("registered");
    let _ = tick(&mut site, at(2));
    site.site.write(
        sig(1),
        at(3),
        Observation::missing(Held::Absent).expect("absent"),
    )
    .expect("registered");
    site.site.write(sig(1), at(3), reading(6)).expect("registered");
    assert_eq!(
        count(
            &tick(&mut site, at(4)).kinds,
            EventKind(SIGNAL_VALIDITY_CHANGED)
        ),
        0
    );
}

#[test]
fn p_182_silence_turns_a_signal_stale_on_the_tick_and_that_is_announced() {
    let mut site = site(1);
    site.site.write(sig(1), at(1), reading(5)).expect("registered");
    let _ = tick(&mut site, at(2));
    // The limit is a minute; nothing written since.
    let later = tick(&mut site, at(62));
    let (n, q, prev) = later.sigs[0].expect("announced");
    assert_eq!(
        (n, q.validity_of(), prev.validity_of()),
        (1, Validity::Stale, Validity::Ok)
    );
}

#[test]
fn p_182_a_record_that_did_not_land_is_owed_again_and_one_that_did_is_not() {
    let mut site = site(2);
    site.site.write(sig(1), at(1), reading(5)).expect("registered");
    let mut tally = Tally::new();
    let mut body = [0u8; RECORD_BODY];
    let lost = loop {
        let owed = site.next_owed(at(2), 1, &mut tally, &mut body).expect("owed");
        if owed.kind == EventKind(SIGNAL_VALIDITY_CHANGED) {
            break owed;
        }
    };
    site.site.not_committed(&lost.token, &body[..lost.len]);
    let again = tick(&mut site, at(3));
    assert_eq!(again.sigs[0].map(|(n, _, _)| n), Some(1), "owed again");
    assert_eq!(again.sigs[1], None);
    assert_eq!(
        count(
            &tick(&mut site, at(4)).kinds,
            EventKind(SIGNAL_VALIDITY_CHANGED)
        ),
        0
    );
}

#[test]
fn p_182_one_tick_owes_at_most_one_of_each_sweep_and_four_concern_records() {
    let mut site = site(1);
    site.site.write(sig(1), at(1), reading(5)).expect("registered");
    site.site.presence(1, Presence::Online).expect("a device");
    site.raises = 6;
    let first = tick(&mut site, at(2));
    assert_eq!(first.kinds.iter().flatten().count(), TICK_RECORDS);
    assert_eq!(count(&first.kinds, EventKind(TOPOLOGY_CHANGED)), 1);
    assert_eq!(count(&first.kinds, EventKind(DEVICE_PRESENCE_CHANGED)), 1);
    assert_eq!(
        count(&first.kinds, EventKind(CONCERN_RAISED)),
        MAX_CONCERN_EVENTS_PER_TICK
    );
    let second = tick(&mut site, at(3));
    assert_eq!(
        count(&second.kinds, EventKind(CONCERN_RAISED)),
        2,
        "the rest, next tick"
    );
    assert_eq!(second.kinds.iter().flatten().count(), 2);
}

#[test]
fn p_182_presence_announces_the_move_with_the_presence_held_before() {
    let mut site = site(0);
    let _ = tick(&mut site, at(1));
    site.site.presence(1, Presence::Online).expect("a device");
    site.site.presence(1, Presence::Offline).expect("a device");
    let mut tally = Tally::new();
    let mut body = [0u8; RECORD_BODY];
    let owed = site.next_owed(at(2), 1, &mut tally, &mut body).expect("owed");
    assert_eq!(owed.kind, EventKind(DEVICE_PRESENCE_CHANGED));
    let (_, mut entries) = PresenceChanged::decode(&body[..owed.len]).expect("a sweep");
    let change = entries.next().expect("one").expect("reads");
    assert_eq!(
        (change.presence, change.prev),
        (km43::Presence::Offline, km43::Presence::Online)
    );
    assert_eq!(
        site.site.presence(9, Presence::Online),
        Err(SiteError::UnknownDevice(9))
    );
}

#[test]
fn p_149_a_refused_batch_registers_nothing_in_the_store_or_the_descriptors() {
    let mut site = site(2);
    let rev = site.site.topology().rev();
    let refused = site.site.apply(
        TopologyChangeReason::ConfigWrite,
        &[signal(3, 1), signal(4, 9)],
    );
    assert!(matches!(refused, Err(SiteError::Topology(_))));
    assert_eq!(site.site.signals().len(), 2);
    assert_eq!(site.site.topology().rev(), rev);
    assert_eq!(
        site.site.write(sig(3), at(1), reading(1)),
        Err(SiteError::Store(SignalError::Unknown(sig(3))))
    );
    // A batch past the store's capacity is refused before either moves.
    let mut full = [signal(3, 1); SITE_SIGNALS];
    for (n, slot) in (3u16..).zip(full.iter_mut()) {
        *slot = signal(n, 1);
    }
    assert_eq!(
        site.site.apply(TopologyChangeReason::ConfigWrite, &full),
        Err(SiteError::Store(SignalError::Full))
    );
    assert_eq!((site.site.signals().len(), site.site.topology().rev()), (2, rev));
}

#[test]
fn p_196_an_unrelated_topology_change_keeps_every_reading_it_did_not_touch() {
    let mut site = site(1);
    site.site.write(sig(1), at(1), reading(42)).expect("registered");
    let mut other = signal(2, 2);
    if let Descriptor::Signal(signal) = &mut other {
        signal.kind = MetricKind(km43::MetricKind::DC_CURRENT.0);
    }
    site.site.apply(
        TopologyChangeReason::ConfigWrite,
        &[device(2, 1, Some(2), None), other],
    )
    .expect("applies");
    let sample = site.site.signals().sample(sig(1), at(2)).expect("held");
    assert_eq!(sample.value(), Some(42));
    assert_eq!(sample.q.validity_of(), Held::Current);
}

fn readings(site: &Plane, request: &ReadSignals) -> ReadingsHeader {
    let mut dst = [0u8; km43::INNER_BODY_BYTES];
    let len = site.site.readings(request, 9, at(2), &mut dst).expect("answers");
    ReadingsHeader::decode(&dst[..len]).expect("a client reads it")
}

#[test]
fn p_199_readings_page_an_empty_store_one_page_one_over_and_a_cursor_past_the_end() {
    let empty = site(0);
    let header = readings(&empty, &ReadSignals::everything(0, 0));
    assert_eq!(header.outcome, ReadingsOutcome::Ok);
    assert_eq!(
        (header.samples, header.next, header.total, header.seq),
        (0, 0, 0, 9)
    );
    // Initialising samples, the narrowest: the row cap binds at forty.
    let cap = u16::try_from(km43::MAX_SAMPLES).expect("fits");
    let one = site(cap);
    let header = readings(&one, &ReadSignals::everything(0, 0));
    assert_eq!(
        (header.samples, header.next, header.total),
        (km43::MAX_SAMPLES, 0, cap)
    );
    let over = site(cap + 1);
    let header = readings(&over, &ReadSignals::everything(over.site.topology().rev(), 0));
    assert_eq!((header.samples, header.next), (km43::MAX_SAMPLES, cap + 1));
    let header = readings(&over, &ReadSignals::everything(0, header.next));
    assert_eq!((header.samples, header.next), (1, 0));
    let header = readings(&over, &ReadSignals::everything(0, cap + 2));
    assert_eq!(
        (header.outcome, header.samples),
        (ReadingsOutcome::OutOfRange, 0)
    );
}

#[test]
fn p_199_a_stale_revision_is_superseded_before_a_selector_that_names_nothing() {
    let site = site(2);
    let mut request = ReadSignals::everything(site.site.topology().rev() + 1, 0);
    assert!(request.select(Sel::Dev(sig(9))));
    assert_eq!(
        readings(&site, &request).outcome,
        ReadingsOutcome::Superseded
    );
    request.rev = 0;
    assert_eq!(
        readings(&site, &request).outcome,
        ReadingsOutcome::UnknownSelector
    );
    let mut request = ReadSignals::everything(0, 0);
    assert!(request.select(Sel::Comp(sig(1))));
    assert_eq!(
        readings(&site, &request).outcome,
        ReadingsOutcome::UnknownSelector
    );
}

#[test]
fn p_198_selectors_resolve_to_their_union_in_sig_order() {
    let site = site(3);
    let mut request = ReadSignals::everything(0, 0);
    assert!(request.select(Sel::Sig(sig(3))));
    assert!(request.select(Sel::Dev(sig(1))));
    assert!(request.select(Sel::Sig(sig(1))));
    let header = readings(&site, &request);
    assert_eq!(
        (header.outcome, header.total, header.samples),
        (ReadingsOutcome::Ok, 3, 3)
    );
}

#[test]
fn p_196_a_reading_carries_its_quality_and_an_unwritten_one_no_value() {
    let mut site = site(2);
    site.site.write(sig(1), at(1), reading(7)).expect("registered");
    let mut dst = [0u8; km43::INNER_BODY_BYTES];
    let len = site
        .site
        .readings(&ReadSignals::everything(0, 0), 1, at(2), &mut dst)
        .expect("answers");
    let mut values = [None; 2];
    let read = ReadingsHeader::for_each_sample(&dst[..len], |sample| {
        let n = usize::from(sample.sig.get()) - 1;
        values[n] = Some((sample.value(), sample.q.validity_of()));
    })
    .expect("reads");
    assert_eq!(read, 2);
    assert_eq!(values[0], Some((Some(7), Validity::Ok)));
    assert_eq!(values[1], Some((None, Validity::Initialising)));
}

#[test]
fn only_a_concern_record_that_landed_is_told_to_its_table() {
    let record = raise(1, 4);
    assert_eq!(
        Site::committed(&Token::Concern(record), 9),
        Some((record, 9))
    );
    assert_eq!(Site::committed(&Token::Validity, 9), None);
    assert_eq!(Site::committed(&Token::Presence(Vec::new()), 9), None);
}

#[test]
fn a_topology_record_that_did_not_land_is_owed_with_the_rows_declared_since() {
    let mut plane = site(3);
    let mut body = [0u8; RECORD_BODY];
    let first = plane
        .next_owed(at(1), 1, &mut Tally::new(), &mut body)
        .expect("the boot's change");
    let Token::Topology(handed) = &first.token else {
        panic!("a topology change first");
    };
    assert_eq!((handed.rev, handed.added), (1, 5));
    let batch = [signal(10, 1), signal(11, 1)];
    plane
        .site
        .apply(TopologyChangeReason::ConfigWrite, &batch)
        .expect("a valid batch");
    plane.site.not_committed(&first.token, &body[..first.len]);
    let next = plane
        .next_owed(at(2), 1, &mut Tally::new(), &mut body)
        .expect("owed again");
    let Token::Topology(both) = &next.token else {
        panic!("a topology change first");
    };
    assert_eq!(both.rev, 2);
    assert_eq!(both.reason, TopologyChangeReason::ConfigWrite);
    assert_eq!(both.added, 5 + 2);
    assert_eq!(both.removed, 0);
}

#[test]
fn a_presence_record_that_did_not_land_is_owed_again() {
    let mut plane = site(1);
    let mut body = [0u8; RECORD_BODY];
    let mut tally = Tally::new();
    plane
        .site
        .presence(1, Presence::Online)
        .expect("a device");
    let mut handed = None;
    while let Some(owed) = plane.next_owed(at(1), 1, &mut tally, &mut body) {
        if let Token::Presence(_) = owed.token {
            handed = Some(owed);
        }
    }
    let handed = handed.expect("a sweep of presences");
    plane.site.not_committed(&handed.token, &[]);
    let mut tally = Tally::new();
    let mut again = false;
    while let Some(owed) = plane.next_owed(at(2), 1, &mut tally, &mut body) {
        again |= owed.token == handed.token;
    }
    assert!(again, "owed again, from the same presence");
}

#[test]
fn every_one_of_sixty_four_changed_signals_is_handed_out_within_four_ticks() {
    let mut plane = site(64);
    for n in 1..=64 {
        plane.site.write(sig(n), at(1), reading(1)).expect("known");
    }
    let mut named = std::collections::BTreeSet::new();
    for second in 1..=4 {
        let swept = tick(&mut plane, at(second));
        named.extend(swept.sigs.iter().flatten().map(|(sig, _, _)| *sig));
    }
    assert_eq!(named.len(), 64);
}

#[test]
fn a_raise_carries_the_position_the_log_will_give_its_record() {
    let mut plane = site(1);
    let mut body = [0u8; RECORD_BODY];
    let mut tally = Tally::new();
    // Past what the boot owes, the concern table's turn comes.
    let ask = loop {
        match plane.site.next_owed(at(1), 77, &mut tally, &mut body) {
            Ok(Due::Concern(ask)) => break ask,
            Ok(Due::Record(_)) => {}
            other => panic!("{other:?}"),
        }
    };
    assert_eq!((ask.rev, ask.now, ask.seq), (1, at(1), 77));
    let raised = raise(ask.rev, 5);
    let due = Site::concern_handed(ask, Ok(Some(raised)), &mut tally, &mut body).expect("writes");
    let Due::Record(owed) = due else {
        panic!("a record");
    };
    assert_eq!(owed.kind, EventKind(CONCERN_RAISED));
    let read = km43::ConcernRaised::decode(&body[..owed.len]).expect("a raise");
    assert_eq!(read.rev, 1);
    assert_eq!(read.concern.seq, 77);
    assert_eq!(read.concern.cid.get(), 5);
    assert_eq!(read.concern.cond, km43::Condition::OVER_VOLTAGE);
    assert_eq!(read.concern.sev, km43::Severity::Warning);
    assert_eq!(read.concern.state, km43::ConcernState::Active);
    assert_eq!((read.concern.age, read.concern.since), (3, None));
    assert_eq!(tally.concerns, 1);
    // One that did not land is handed back as it went out.
    let Token::Concern(out) = owed.token else {
        panic!("a concern's token");
    };
    assert_eq!(
        plane.site.not_committed(&Token::Concern(out), &body),
        Some(out)
    );
    assert_eq!(out, raised.at(77));
}

#[test]
fn a_change_goes_out_as_it_is_and_a_refusal_is_handed_on() {
    let plane = site(1);
    let rev = plane.site.topology().rev();
    let ask = ConcernAsk {
        rev,
        now: at(1),
        seq: 9,
    };
    let changed = ConcernRecord::Changed(ConcernChanged {
        rev,
        cid: sig(7),
        dev: sig(1),
        cond: Condition(3),
        state: ConcernState::Cleared,
        prev: ConcernState::ActiveAcked,
    });
    let mut body = [0u8; RECORD_BODY];
    let mut tally = Tally::new();
    let due = Site::concern_handed(ask, Ok(Some(changed)), &mut tally, &mut body).expect("writes");
    let Due::Record(owed) = due else {
        panic!("a record");
    };
    assert_eq!(owed.kind, EventKind(CONCERN_CHANGED));
    assert_eq!(owed.token, Token::Concern(changed));
    let read = km43::ConcernChanged::decode(&body[..owed.len]).expect("a change");
    assert_eq!((read.cid.get(), read.dev.get(), read.cond.0), (7, 1, 3));
    assert_eq!(read.state, km43::ConcernState::Cleared);
    assert_eq!(read.prev, km43::ConcernState::ActiveAcked);
    let refused = km43::ConcernsError::ZeroId;
    let before = tally;
    assert_eq!(
        Site::concern_handed(ask, Err(refused), &mut tally, &mut body),
        Err(OwedError::Concern(refused))
    );
    assert_eq!(tally, before);
    assert_eq!(
        Site::concern_handed(ask, Ok(None), &mut tally, &mut body),
        Ok(Due::Nothing)
    );
}

#[test]
fn a_concern_about_one_element_names_it_and_the_sources_code() {
    assert_eq!(ElementAt::new(0), None);
    assert_eq!(ElementAt::new(17), None);
    let ConcernRecord::Raised(mut raised) = raise(2, 1) else {
        panic!("a raise");
    };
    raised.concern.subject = About {
        dev: sig(3),
        comp: Some(sig(4)),
        reach: Reach::Element(sig(5), ElementAt::new(16).expect("in a series")),
    };
    raised.concern.since = Some(u64::MAX);
    raised.concern.age = u32::MAX;
    raised.concern.code = Some(VendorCode {
        raw: u32::MAX,
        vns: 0xF123,
    });
    let ask = ConcernAsk {
        rev: 2,
        now: at(1),
        seq: u64::MAX,
    };
    let mut body = [0u8; RECORD_BODY];
    let record = ConcernRecord::Raised(raised);
    let due = Site::concern_handed(ask, Ok(Some(record)), &mut Tally::new(), &mut body);
    let Ok(Due::Record(owed)) = due else {
        panic!("a record");
    };
    let read = km43::ConcernRaised::decode(&body[..owed.len]).expect("a raise");
    let subject = read.concern.subject;
    assert_eq!(subject.part().dev().get(), 3);
    assert_eq!(subject.part().cmp(), 4);
    assert_eq!(subject.sig().map(|sig| sig.get()), Some(5));
    assert_eq!(subject.at().map(|at| at.get()), Some(16));
    let code = read.concern.code.expect("a code");
    assert_eq!((code.raw, code.vns.0), (u32::MAX, 0xF123));
    assert_eq!(read.concern.since, Some(u64::MAX));
}
