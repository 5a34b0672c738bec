//! The store of readings: what each is worth, and to whom.

use o89_core::reading::{Id, Provenance, QualityError, Validity};
use o89_core::signals::{
    seconds, ChargeSource, Eligible, Ineligible, Limits, Observation, ProvenanceSet, SignalError,
    Signals,
};
use o89_core::tick::{Millis, Tick};

fn sig(n: u16) -> Id {
    Id::new(n).expect("a non-zero id")
}

fn at(millis: u64) -> Tick {
    Tick::from_millis(millis)
}

fn secs(n: u64) -> Millis {
    Millis::from_secs(n).expect("a representable duration")
}

/// A minute's maximum age and, when given, an unchanged-run limit.
fn limits(run: Option<u64>) -> Limits {
    Limits::new(secs(60), run.map(secs)).expect("non-zero limits")
}

fn measured(value: i32) -> Observation {
    Observation::value(value, Provenance::Measured).expect("a measured value")
}

fn store_with(run: Option<u64>) -> Signals<4> {
    let mut store = Signals::<4>::new();
    store.register(sig(1), limits(run)).expect("room");
    store
}

fn validity(store: &Signals<4>, now: u64) -> Validity {
    store
        .sample(sig(1), at(now))
        .expect("a sample")
        .q
        .validity_of()
}

#[test]
fn a_registered_signal_reads_initialising_with_no_value_before_its_first_write() {
    let store = store_with(None);
    let sample = store.sample(sig(1), at(0)).expect("a sample");
    assert_eq!(sample.q.validity_of(), Validity::Initialising);
    assert_eq!(sample.q.provenance_of(), Provenance::Nowhere);
    assert_eq!(sample.value(), None);
}

#[test]
fn a_written_value_publishes_with_its_provenance_and_no_age() {
    let mut store = store_with(None);
    store
        .write(
            sig(1),
            at(0),
            Observation::value(1234, Provenance::Counted).unwrap(),
        )
        .unwrap();
    let sample = store.sample(sig(1), at(1_000)).unwrap();
    assert_eq!(sample.value(), Some(1234));
    assert_eq!(sample.q.validity_of(), Validity::Current);
    assert_eq!(sample.q.provenance_of(), Provenance::Counted);
    assert_eq!(sample.age(), None);
}

#[test]
fn p_196_absent_never_carries_a_value_or_a_provenance() {
    for validity in [
        Validity::Initialising,
        Validity::Unsupported,
        Validity::SensorFault,
        Validity::OutOfRange,
        Validity::Absent,
        Validity::UnnamedState,
    ] {
        let mut store = store_with(Some(10));
        store.write(sig(1), at(0), measured(215)).unwrap();
        store
            .write(sig(1), at(1_000), Observation::missing(validity).unwrap())
            .unwrap();
        // Long past both limits: a missing reading has nothing to go
        // stale, and the value before it never comes back.
        for now in [1_000, 30_000, 3_600_000] {
            let sample = store.sample(sig(1), at(now)).unwrap();
            assert_eq!(sample.value(), None, "{validity:?} at {now}");
            assert_eq!(sample.q.validity_of(), validity);
            assert_eq!(sample.q.provenance_of(), Provenance::Nowhere);
            assert_eq!(sample.age(), None);
        }
    }
}

#[test]
fn p_196_an_observation_refuses_a_value_without_provenance_and_a_missing_value_that_says_ok_or_stale()
 {
    assert_eq!(
        Observation::value(1, Provenance::Nowhere),
        Err(QualityError::CarryingWithoutProvenance)
    );
    assert_eq!(
        Observation::missing(Validity::Current),
        Err(QualityError::ValueOmitted(Validity::Current))
    );
    // A driver cannot declare its own reading stale.
    assert_eq!(
        Observation::missing(Validity::Stale),
        Err(QualityError::ValueOmitted(Validity::Stale))
    );
}

#[test]
fn a_full_store_refuses_a_new_signal_and_keeps_every_existing_one() {
    let mut store = Signals::<2>::new();
    store.register(sig(5), limits(None)).unwrap();
    store.register(sig(3), limits(None)).unwrap();
    store.write(sig(5), at(0), measured(50)).unwrap();
    store.write(sig(3), at(0), measured(30)).unwrap();

    assert_eq!(store.register(sig(4), limits(None)), Err(SignalError::Full));
    assert_eq!(store.len(), 2);
    assert_eq!(store.sample(sig(5), at(0)).unwrap().value(), Some(50));
    assert_eq!(store.sample(sig(3), at(0)).unwrap().value(), Some(30));
    assert_eq!(
        store.sample(sig(4), at(0)),
        Err(SignalError::Unknown(sig(4)))
    );
}

#[test]
fn a_store_of_no_slots_refuses_the_first_signal() {
    let mut store = Signals::<0>::new();
    assert!(store.is_empty());
    assert_eq!(store.register(sig(1), limits(None)), Err(SignalError::Full));
}

#[test]
fn a_duplicate_registration_and_a_write_to_an_unknown_signal_are_refused() {
    let mut store = store_with(None);
    store.write(sig(1), at(0), measured(7)).unwrap();
    assert_eq!(
        store.register(sig(1), limits(Some(5))),
        Err(SignalError::Duplicate(sig(1)))
    );
    // The first registration and its value survive the refusal.
    assert_eq!(store.sample(sig(1), at(0)).unwrap().value(), Some(7));
    assert_eq!(
        store.write(sig(2), at(0), measured(1)),
        Err(SignalError::Unknown(sig(2)))
    );
}

#[test]
fn samples_come_out_in_ascending_signal_order_whatever_the_registration_order() {
    let mut store = Signals::<4>::new();
    for n in [9, 2, 7, 4] {
        store.register(sig(n), limits(None)).unwrap();
    }
    let order: [u16; 4] = {
        let mut ids = store.samples(at(0)).into_iter().map(|s| s.unwrap().sig.get());
        core::array::from_fn(|_| ids.next().unwrap())
    };
    assert_eq!(order, [2, 4, 7, 9]);
}

#[test]
fn a_zero_limit_is_refused() {
    assert_eq!(Limits::new(Millis::from_millis(0), None), None);
    assert_eq!(Limits::new(secs(1), Some(Millis::from_millis(0))), None);
    let ok = Limits::new(secs(1), Some(secs(2))).unwrap();
    assert_eq!(ok.max_age(), secs(1));
    assert_eq!(ok.max_unchanged(), Some(secs(2)));
}

#[test]
fn maximum_age_turns_a_silent_slot_stale_after_the_limit_and_not_at_it() {
    let mut store = store_with(None);
    store
        .write(
            sig(1),
            at(0),
            Observation::value(80, Provenance::Counted).unwrap(),
        )
        .unwrap();
    assert_eq!(validity(&store, 60_000), Validity::Current);
    let stale = store.sample(sig(1), at(60_001)).unwrap();
    assert_eq!(stale.q.validity_of(), Validity::Stale);
    // Counted and stale is sayable: the provenance survives.
    assert_eq!(stale.q.provenance_of(), Provenance::Counted);
    assert_eq!(stale.value(), Some(80));
    assert_eq!(stale.age(), Some(60));
}

#[test]
fn maximum_unchanged_run_turns_a_hung_instrument_stale_while_it_keeps_answering() {
    let mut store = store_with(Some(10));
    for second in 0..=10 {
        store
            .write(sig(1), at(second * 1_000), measured(215))
            .unwrap();
    }
    assert_eq!(validity(&store, 10_000), Validity::Current);
    store.write(sig(1), at(11_000), measured(215)).unwrap();
    let stale = store.sample(sig(1), at(11_000)).unwrap();
    assert_eq!(stale.q.validity_of(), Validity::Stale);
    assert_eq!(stale.q.provenance_of(), Provenance::Measured);
    // As old as the run, though written this instant.
    assert_eq!(stale.age(), Some(11));
}

#[test]
fn a_channel_with_no_unchanged_run_limit_never_goes_stale_for_holding_still() {
    let mut store = store_with(None);
    for minute in 0..=60 * 24 * 7 {
        store
            .write(sig(1), at(minute * 60_000), measured(1))
            .unwrap();
    }
    assert_eq!(validity(&store, 60 * 24 * 7 * 60_000), Validity::Current);
}

#[test]
fn a_changed_value_restarts_the_unchanged_run() {
    let mut store = store_with(Some(10));
    store.write(sig(1), at(0), measured(215)).unwrap();
    store.write(sig(1), at(9_000), measured(216)).unwrap();
    store.write(sig(1), at(18_000), measured(216)).unwrap();
    assert_eq!(validity(&store, 19_000), Validity::Current);
    assert_eq!(validity(&store, 19_001), Validity::Stale);
}

#[test]
fn a_changed_quality_restarts_the_unchanged_run() {
    let mut store = store_with(Some(10));
    store.write(sig(1), at(0), measured(215)).unwrap();
    // The same number from another source is another reading.
    store
        .write(
            sig(1),
            at(9_000),
            Observation::value(215, Provenance::Estimated).unwrap(),
        )
        .unwrap();
    store
        .write(
            sig(1),
            at(18_000),
            Observation::value(215, Provenance::Estimated).unwrap(),
        )
        .unwrap();
    assert_eq!(validity(&store, 19_000), Validity::Current);
    assert_eq!(validity(&store, 19_001), Validity::Stale);

    // A fault between two equal values restarts it too.
    let mut store = store_with(Some(10));
    store.write(sig(1), at(0), measured(215)).unwrap();
    store
        .write(
            sig(1),
            at(5_000),
            Observation::missing(Validity::SensorFault).unwrap(),
        )
        .unwrap();
    store.write(sig(1), at(9_000), measured(215)).unwrap();
    assert_eq!(validity(&store, 19_000), Validity::Current);
    assert_eq!(validity(&store, 19_001), Validity::Stale);
}

#[test]
fn a_channel_back_from_silence_starts_a_new_run_rather_than_continuing_the_old_one() {
    let mut store = store_with(Some(90));
    store.write(sig(1), at(0), measured(215)).unwrap();
    store.write(sig(1), at(30_000), measured(215)).unwrap();
    // Silent from 30 s to 100 s, past the minute's maximum age.
    assert_eq!(validity(&store, 100_000), Validity::Stale);
    store.write(sig(1), at(100_000), measured(215)).unwrap();
    // Continuing the old run would be 100 s unchanged and stale; the
    // new one is a second old.
    assert_eq!(validity(&store, 101_000), Validity::Current);
    for now in [130_000, 160_000, 190_000] {
        store.write(sig(1), at(now), measured(215)).unwrap();
    }
    assert_eq!(validity(&store, 190_000), Validity::Current);
    assert_eq!(validity(&store, 190_001), Validity::Stale);
}

#[test]
fn a_write_at_exactly_the_maximum_age_continues_the_run() {
    let mut store = store_with(Some(90));
    store.write(sig(1), at(0), measured(215)).unwrap();
    store.write(sig(1), at(60_000), measured(215)).unwrap();
    assert_eq!(validity(&store, 90_000), Validity::Current);
    assert_eq!(validity(&store, 90_001), Validity::Stale);
}

#[test]
fn a_tick_behind_the_last_write_is_refused_for_writes_and_reads() {
    let mut store = store_with(None);
    store.write(sig(1), at(5_000), measured(1)).unwrap();
    assert_eq!(
        store.write(sig(1), at(4_999), measured(2)),
        Err(SignalError::TickBehind(sig(1)))
    );
    assert_eq!(
        store.sample(sig(1), at(4_999)),
        Err(SignalError::TickBehind(sig(1)))
    );
    // The refused write left the value it would have replaced.
    assert_eq!(store.sample(sig(1), at(5_000)).unwrap().value(), Some(1));
}

#[test]
fn a_stale_age_saturates_rather_than_wrapping() {
    assert_eq!(seconds(Millis::from_millis(u64::MAX)), u32::MAX);
    assert_eq!(seconds(Millis::from_millis(1_999)), 1);
}

#[test]
fn current_refuses_no_value_stale_and_an_unaccepted_provenance_each_as_itself() {
    let every = ProvenanceSet::of(&[Provenance::Measured]);
    let mut store = store_with(None);
    assert_eq!(
        store.current(sig(1), at(0), every),
        Err(Ineligible::NoValue(Validity::Initialising))
    );
    store.write(sig(1), at(0), measured(5)).unwrap();
    assert_eq!(
        store.current(sig(1), at(0), every),
        Ok(Eligible {
            value: 5,
            provenance: Provenance::Measured
        })
    );
    assert_eq!(
        store.current(sig(1), at(60_001), every),
        Err(Ineligible::Stale(Provenance::Measured))
    );
    assert_eq!(
        store.current(sig(1), at(0), ProvenanceSet::empty()),
        Err(Ineligible::Provenance(Provenance::Measured))
    );
    assert_eq!(
        store.current(sig(2), at(0), every),
        Err(Ineligible::Store(SignalError::Unknown(sig(2))))
    );
}

#[test]
fn f_052_counted_only_refuses_an_estimated_state_of_charge_and_accepts_a_counted_one() {
    let mut store = store_with(None);
    store
        .write(
            sig(1),
            at(0),
            Observation::value(640, Provenance::Estimated).unwrap(),
        )
        .unwrap();
    assert_eq!(
        store.current(sig(1), at(0), ChargeSource::CountedOnly.accepts()),
        Err(Ineligible::Provenance(Provenance::Estimated))
    );
    assert_eq!(
        store.current(sig(1), at(0), ChargeSource::EstimateAccepted.accepts()),
        Ok(Eligible {
            value: 640,
            provenance: Provenance::Estimated
        })
    );

    store
        .write(
            sig(1),
            at(1_000),
            Observation::value(655, Provenance::Counted).unwrap(),
        )
        .unwrap();
    for rule in [ChargeSource::CountedOnly, ChargeSource::EstimateAccepted] {
        assert_eq!(
            store.current(sig(1), at(1_000), rule.accepts()),
            Ok(Eligible {
                value: 655,
                provenance: Provenance::Counted
            })
        );
    }
    // Counted is still subject to the other guards: stale is refused.
    assert_eq!(
        store.current(sig(1), at(61_001), ChargeSource::CountedOnly.accepts()),
        Err(Ineligible::Stale(Provenance::Counted))
    );
}

#[test]
fn a_provenance_set_is_a_set_and_not_a_threshold() {
    let reported = ProvenanceSet::of(&[Provenance::Reported]);
    // Reported sits above estimated in allocation order and says nothing
    // about it.
    assert!(reported.contains(Provenance::Reported));
    assert!(!reported.contains(Provenance::Estimated));
    assert!(!reported.contains(Provenance::Measured));
    // None is never a member, even when asked for.
    assert!(!ProvenanceSet::of(&[Provenance::Nowhere]).contains(Provenance::Nowhere));
    let all = ProvenanceSet::of(&[
        Provenance::Measured,
        Provenance::Counted,
        Provenance::Derived,
        Provenance::Estimated,
        Provenance::Reported,
        Provenance::Commanded,
    ]);
    assert!(!all.contains(Provenance::Nowhere));
    assert!(!ProvenanceSet::empty().contains(Provenance::Measured));
}
