//! The wall clock: what may move it, and what is written down of it.

use km43::ControllerRecord;
use o89_core::idents::ReqId;
use o89_core::reset::{RtcClock, RtcSource};
use o89_core::tick::{Tick, UnixMillis};
use o89_core::wall_clock::{
    ClockChange, OfferIntake, OfferedTime, TimeOffer, TimeSet, TimeSource, WallClock,
    PLAUSIBILITY_SPAN,
};

/// The record as the log writes it.
fn wire_record(set: TimeSet) -> ControllerRecord {
    ControllerRecord::TimeSet {
        old: set.old,
        new: set.new,
        source: match set.source {
            TimeSource::Client => km43::TimeSource::Client,
            TimeSource::NtpViaComms => km43::TimeSource::NtpViaComms,
        },
    }
}

const FLOOR: u64 = 1_800_000_000_000;
fn time(at: u64) -> UnixMillis {
    UnixMillis::new(at).unwrap()
}

#[test]
fn queue_delay_advances_first_set_and_known_clock_correction() {
    let received = Tick::from_millis(100);
    let now = Tick::from_millis(30_100);
    let offered = OfferedTime::new(FLOOR, received);
    assert_eq!(offered.at(now), Some(FLOOR + 30_000));
    for current in [None, Some(time(FLOOR + 30_000))] {
        let change = WallClock::new()
            .offer(offered.at(now).unwrap(), current, time(FLOOR), now)
            .unwrap();
        assert_eq!(change.new_value(), time(FLOOR + 30_000));
    }
    assert_eq!(offered.at(Tick::zero()), None);
    assert_eq!(OfferedTime::new(u64::MAX, Tick::zero()).at(now), None);
}

fn applied(clock: &mut WallClock) -> ClockChange {
    let change = clock.offer(FLOOR, None, time(FLOOR), Tick::zero()).unwrap();
    assert_eq!(
        clock.intake(ReqId(1), FLOOR, Tick::zero()),
        OfferIntake::Queued
    );
    assert!(clock.applied(
        ReqId(1),
        OfferedTime::new(FLOOR, Tick::zero()),
        change,
        Tick::zero()
    ));
    change
}

#[test]
fn failed_audit_keeps_original_until_durable_and_lost_reply_replays() {
    let mut clock = WallClock::new();
    let change = applied(&mut clock);
    assert_eq!(clock.audit_due(Tick::zero()), Some(change));
    assert_eq!(clock.audit_due(Tick::from_millis(999)), None);
    assert_eq!(
        clock.intake(ReqId(1), FLOOR, Tick::from_millis(500)),
        OfferIntake::Pending
    );
    assert!(clock.audit_pending());
    assert!(!clock.applied(
        ReqId(2),
        OfferedTime::new(FLOOR, Tick::zero()),
        change,
        Tick::zero()
    ));
    let now = Tick::from_millis(1_000);
    assert_eq!(clock.audit_due(now), Some(change));
    assert_eq!(clock.audit_written(now), Some(ReqId(1)));
    clock.finished(ReqId(1)); // UART can now fail or the response can be lost.
    for tick in [1_000, 1_500, 2_499] {
        assert_eq!(
            clock.intake(ReqId(1), FLOOR, Tick::from_millis(tick)),
            OfferIntake::Accepted
        );
    }
    assert_eq!(
        clock.intake(ReqId(1), FLOOR + 1, now),
        OfferIntake::RateLimited
    );
    assert_eq!(
        clock.intake(ReqId(1), FLOOR, Tick::from_millis(2_500)),
        OfferIntake::RateLimited
    );
    assert!(!clock.audit_pending());
    assert_eq!(clock.audit_due(Tick::from_millis(3_000)), None);
}

#[test]
fn disconnect_and_restart_keep_audit_without_reply_to_new_link() {
    let mut clock = WallClock::new();
    let change = applied(&mut clock);
    clock.cancel_pending();
    assert_eq!(clock.audit_due(Tick::zero()), Some(change));
    assert_eq!(clock.audit_written(Tick::zero()), None);
    assert!(!clock.audit_pending());
    assert_eq!(
        clock.intake(ReqId(1), FLOOR, Tick::zero()),
        OfferIntake::RateLimited
    );
    let mut rebooted = WallClock::new();
    assert!(rebooted.recover_audit(change));
    assert!(!rebooted.recover_audit(change));
    assert_eq!(rebooted.audit_due(Tick::zero()), Some(change));
    assert_eq!(rebooted.audit_written(Tick::zero()), None);
    assert!(!rebooted.audit_pending());
}

#[test]
fn late_completion_is_not_evicted_and_request_id_can_be_reused_after_expiry() {
    let mut clock = WallClock::new();
    applied(&mut clock);
    let now = Tick::from_millis(900_000);
    assert_eq!(clock.audit_written(now), Some(ReqId(1)));
    clock.finished(ReqId(1));
    assert!(!clock.ready_for_offer(now));
    assert!(clock.ready_for_offer(Tick::from_millis(901_500)));
    assert_eq!(clock.intake(ReqId(2), FLOOR, now), OfferIntake::Full);
    assert_eq!(clock.intake(ReqId(1), FLOOR, now), OfferIntake::Accepted);
    assert_eq!(
        clock.intake(ReqId(1), FLOOR + 10, Tick::from_millis(901_500)),
        OfferIntake::Queued
    );
    clock.cancel_pending();
    assert_eq!(
        clock.intake(ReqId(1), FLOOR, Tick::from_millis(901_500)),
        OfferIntake::Queued
    );
}

#[test]
fn only_ready_lse_enables_calendar_access() {
    for ready in [false, true] {
        for source in [
            RtcSource::Unclocked,
            RtcSource::Lse,
            RtcSource::Lsi,
            RtcSource::Hse,
        ] {
            assert_eq!(
                RtcClock::from_backup_domain(ready, source).calendar_enabled(),
                ready && source == RtcSource::Lse
            );
        }
    }
}

#[test]
fn l_014_pending_work_and_answers_share_four_slots_without_eviction() {
    let mut clock = WallClock::new();
    for id in 1..=4 {
        assert_eq!(
            clock.intake(ReqId(id), FLOOR, Tick::zero()),
            OfferIntake::Queued
        );
    }
    assert_eq!(
        clock.intake(ReqId(1), FLOOR, Tick::zero()),
        OfferIntake::Pending
    );
    assert_eq!(clock.intake(ReqId(5), FLOOR, Tick::zero()), OfferIntake::Full);
    clock.finished(ReqId(2));
    assert_eq!(
        clock.intake(ReqId(5), FLOOR, Tick::zero()),
        OfferIntake::Queued
    );
    clock.cancel_pending();
    assert_eq!(
        clock.intake(ReqId(1), FLOOR, Tick::zero()),
        OfferIntake::Queued
    );
    clock.offer_applied(Tick::zero());
    clock.cancel_pending();
    assert_eq!(
        clock.intake(ReqId(1), FLOOR, Tick::zero()),
        OfferIntake::RateLimited
    );
    assert_eq!(clock.rate_refusals(), 1);
}

#[test]
fn l_142_only_an_empty_timestamp_history_uses_the_build() {
    assert_eq!(WallClock::floor(None, FLOOR), Some(time(FLOOR)));
    assert_eq!(
        WallClock::floor(Some(FLOOR - 1), FLOOR),
        Some(time(FLOOR - 1))
    );
    assert_eq!(
        WallClock::floor(Some(FLOOR + 1), FLOOR),
        Some(time(FLOOR + 1))
    );
    assert_eq!(WallClock::floor(Some(0), FLOOR), None);
    assert_eq!(WallClock::floor(Some(FLOOR), 0), Some(time(FLOOR)));
    assert_eq!(WallClock::floor(None, 0), None);
}

#[test]
fn l_140_l_142_first_set_checks_both_window_edges() {
    let mut clock = WallClock::new();
    for at in [0, FLOOR - 1, FLOOR + PLAUSIBILITY_SPAN + 1, u64::MAX] {
        assert_eq!(
            clock.offer(at, None, time(FLOOR), Tick::zero()),
            Err(TimeOffer::RefusedImplausible)
        );
    }
    for at in [FLOOR, FLOOR + PLAUSIBILITY_SPAN] {
        assert_eq!(
            clock.offer(at, None, time(FLOOR), Tick::zero()),
            Ok(ClockChange::recovered(
                None,
                time(at),
                TimeSource::NtpViaComms
            ))
        );
    }
}

#[test]
fn l_141_l_150_known_clock_corrects_both_ways_even_below_floor() {
    let mut clock = WallClock::new();
    for at in [FLOOR - 5_000, FLOOR + 5_000] {
        assert!(
            clock
                .offer(at, Some(time(FLOOR)), time(FLOOR + 10_000), Tick::zero())
                .is_ok()
        );
    }
    for at in [0, FLOOR - 5_001, FLOOR + 5_001] {
        assert_eq!(
            clock.offer(at, Some(time(FLOOR)), time(FLOOR), Tick::zero()),
            Err(TimeOffer::RefusedStepTooLarge)
        );
    }
}

#[test]
fn l_151_limit_uses_tick_and_counts_every_refusal() {
    let mut clock = WallClock::new();
    clock.offer_applied(Tick::from_millis(100));
    for now in [0, 100, 900_099] {
        assert_eq!(
            clock.offer(FLOOR, None, time(FLOOR), Tick::from_millis(now)),
            Err(TimeOffer::RefusedRateLimited)
        );
    }
    assert_eq!(clock.rate_refusals(), 3);
    assert!(
        clock
            .offer(FLOOR, None, time(FLOOR), Tick::from_millis(900_100))
            .is_ok()
    );
}

#[test]
fn l_160_l_162_p_111_record_names_old_new_and_comms_provenance() {
    let mut clock = WallClock::new();
    for old in [None, Some(time(FLOOR))] {
        let change = clock
            .offer(FLOOR + 1, old, time(FLOOR), Tick::zero())
            .unwrap();
        assert_eq!(
            change.record(),
            TimeSet {
                old: old.map(UnixMillis::as_millis),
                new: FLOOR + 1,
                source: TimeSource::NtpViaComms,
            }
        );
        let mut bytes = [0; km43::CONTROLLER_RECORD_MAX_BYTES];
        let len = wire_record(change.record()).encode(&mut bytes).unwrap();
        assert_eq!(
            ControllerRecord::decode(km43::EventKind::TIME_SET, &bytes[..len]),
            Ok(wire_record(change.record()))
        );
    }
}

#[test]
fn failed_calendar_write_does_not_start_the_limit() {
    let mut clock = WallClock::new();
    assert!(clock.offer(FLOOR, None, time(FLOOR), Tick::zero()).is_ok());
    assert!(clock.offer(FLOOR, None, time(FLOOR), Tick::zero()).is_ok());
    assert_eq!(clock.rate_refusals(), 0);
}

#[test]
fn l_140_window_near_integer_limit_does_not_wrap() {
    let mut clock = WallClock::new();
    assert!(
        clock
            .offer(u64::MAX, None, time(u64::MAX - 1), Tick::zero())
            .is_ok()
    );
    assert_eq!(
        clock.offer(1, None, time(u64::MAX - 1), Tick::zero()),
        Err(TimeOffer::RefusedImplausible)
    );
}
