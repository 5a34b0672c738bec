//! What a boot's registers say of the reset before it.

use o89_core::reset::{BackupDomain, BootRecord, ResetCause, ResetFlags, RtcClock, RtcSource};
use o89_core::revision::Revision;
use o89_core::rollcall::{Blame, Task};
use o89_core::tick::Millis;

#[test]
fn f_009_the_most_specific_reset_flag_names_the_cause() {
    // A watchdog reset also raises the pin flag on this family, and a
    // boot that read that as a pin reset would hide every starvation.
    let starved = ResetFlags::none().watchdog(true).pin(true);
    assert_eq!(ResetCause::from_flags(starved), ResetCause::Watchdog);
    let panicked = ResetFlags::none().software(true).pin(true);
    assert_eq!(ResetCause::from_flags(panicked), ResetCause::Software);
    let flipped = ResetFlags::none().option_byte(true).pin(true);
    assert_eq!(ResetCause::from_flags(flipped), ResetCause::OptionByte);
    // Every flag at once, as a register full of history reads: still
    // the watchdog, and never the pin.
    let all = ResetFlags::none()
        .pin(true)
        .power(true)
        .watchdog(true)
        .window_watchdog(true)
        .software(true)
        .low_power(true)
        .option_byte(true);
    assert_eq!(ResetCause::from_flags(all), ResetCause::Watchdog);
}

#[test]
fn f_009_a_pin_reset_is_only_one_with_no_power_flag() {
    let pin = ResetFlags::none().pin(true);
    assert_eq!(ResetCause::from_flags(pin), ResetCause::Pin);
    // Power-on raises both; a brown-out is not somebody pressing reset.
    let cold = ResetFlags::none().pin(true).power(true);
    assert_eq!(ResetCause::from_flags(cold), ResetCause::Power);
    // A flag passed as false is not set.
    assert_eq!(ResetFlags::none().pin(false), ResetFlags::none());
}

#[test]
fn f_009_no_flag_at_all_reads_as_power() {
    // Flags already cleared, or a part that reports nothing: the boot
    // is not left without a cause, and the cause is the one that cannot
    // be mistaken for a fault of ours.
    assert_eq!(ResetCause::from_flags(ResetFlags::none()), ResetCause::Power);
    assert_eq!(ResetFlags::default(), ResetFlags::none());
}

#[test]
fn f_010_only_a_ready_and_selected_crystal_is_the_rtc_clock() {
    assert_eq!(
        RtcClock::from_backup_domain(true, RtcSource::Lse),
        RtcClock::Lse
    );
    // Selected but not ready: the RTC is not ticking.
    assert_eq!(
        RtcClock::from_backup_domain(false, RtcSource::Lse),
        RtcClock::Fault {
            lse_ready: false,
            source: RtcSource::Lse
        }
    );
    // The LSI fallback looks alive and is a fault, never a clock.
    assert_eq!(
        RtcClock::from_backup_domain(true, RtcSource::Lsi),
        RtcClock::Fault {
            lse_ready: true,
            source: RtcSource::Lsi
        }
    );
    assert_eq!(
        RtcClock::from_backup_domain(false, RtcSource::Unclocked),
        RtcClock::Fault {
            lse_ready: false,
            source: RtcSource::Unclocked
        }
    );
}

#[test]
fn f_014_the_boot_record_says_the_rail_cycled_on_revision_a_only() {
    let blame = Some(Blame {
        task: Task::OneWire,
        overdue: Millis::from_millis(31_000),
    });
    let on_a = BootRecord::new(
        ResetCause::Watchdog,
        blame,
        RtcClock::Lse,
        BackupDomain::Valid,
        Revision::A,
    );
    assert!(on_a.module_rail_cycled);
    assert_eq!(on_a.blame, blame);
    let on_b = BootRecord::new(
        ResetCause::Watchdog,
        None,
        RtcClock::Lse,
        BackupDomain::Invalid,
        Revision::B,
    );
    assert!(!on_b.module_rail_cycled);
    assert_eq!(on_b.backup, BackupDomain::Invalid);
}
