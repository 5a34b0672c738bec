//! Why the part reset, what the clock's backup domain says, and the record a
//! boot writes about both.
//!
//! The reset flags stay set until software clears them, several at once, and
//! what was read is decoded here: a watchdog reset is never reported as a
//! power-on. An RTC on its internal oscillator looks alive and does not
//! survive the backup domain, so the crystal is asserted rather than assumed.

use vstd::prelude::*;

use crate::revision::{RailThroughReset, Revision};
use crate::rollcall::Blame;

verus! {

/// The reset flags as the part reports them: a set, built from the register
/// one flag at a time.
#[derive(Debug, Clone, Copy, PartialEq, Eq, Structural)]
pub struct ResetFlags(u8);

/// Which flags are set.
pub struct FlagSet {
    /// The reset pin.
    pub pin: bool,
    /// Power-on, power-down or brown-out.
    pub power: bool,
    /// The independent watchdog.
    pub watchdog: bool,
    /// The window watchdog.
    pub window_watchdog: bool,
    /// A software-requested reset.
    pub software: bool,
    /// An illegal low-power mode entry.
    pub low_power: bool,
    /// An option-byte reload.
    pub option_byte: bool,
}

const PIN: u8 = 1;

const POWER: u8 = 2;

const WATCHDOG: u8 = 4;

const WINDOW_WATCHDOG: u8 = 8;

const SOFTWARE: u8 = 16;

const LOW_POWER: u8 = 32;

const OPTION_BYTE: u8 = 64;

impl View for ResetFlags {
    type V = FlagSet;

    closed spec fn view(&self) -> FlagSet {
        FlagSet {
            pin: self.0 & 1 != 0,
            power: self.0 & 2 != 0,
            watchdog: self.0 & 4 != 0,
            window_watchdog: self.0 & 8 != 0,
            software: self.0 & 16 != 0,
            low_power: self.0 & 32 != 0,
            option_byte: self.0 & 64 != 0,
        }
    }
}

/// No flag set.
pub open spec fn no_flag() -> FlagSet {
    FlagSet {
        pin: false,
        power: false,
        watchdog: false,
        window_watchdog: false,
        software: false,
        low_power: false,
        option_byte: false,
    }
}

impl Default for ResetFlags {
    fn default() -> (r: Self)
        ensures
            r@ == no_flag(),
    {
        Self::none()
    }
}

impl ResetFlags {
    /// No flag set.
    pub fn none() -> (r: Self)
        ensures
            r@ == no_flag(),
    {
        assert(0u8 & 1 == 0 && 0u8 & 2 == 0 && 0u8 & 4 == 0 && 0u8 & 8 == 0 && 0u8 & 16 == 0 && 0u8
            & 32 == 0 && 0u8 & 64 == 0) by (bit_vector);
        ResetFlags(0)
    }

    /// These flags, and `flag` when it is set.
    fn with(self, flag: u8, set: bool) -> (r: Self)
        ensures
            r.0 == if set {
                self.0 | flag
            } else {
                self.0
            },
    {
        if set {
            ResetFlags(self.0 | flag)
        } else {
            self
        }
    }

    /// Whether `flag` is set.
    fn has(self, flag: u8) -> (r: bool)
        ensures
            r == (self.0 & flag != 0),
    {
        self.0 & flag != 0
    }

    /// The reset pin, which revision A does not bring out.
    pub fn pin(self, set: bool) -> (r: Self)
        ensures
            r@ == (FlagSet { pin: self@.pin || set, ..self@ }),
    {
        let b: u8 = self.0;
        assert((b | 1) & 1 != 0 && (b | 1) & 2 == b & 2 && (b | 1) & 4 == b & 4 && (b | 1) & 8 == b
            & 8 && (b | 1) & 16 == b & 16 && (b | 1) & 32 == b & 32 && (b | 1) & 64 == b & 64)
            by (bit_vector);
        self.with(PIN, set)
    }

    /// Power-on, power-down or brown-out, which share one flag.
    pub fn power(self, set: bool) -> (r: Self)
        ensures
            r@ == (FlagSet { power: self@.power || set, ..self@ }),
    {
        let b: u8 = self.0;
        assert((b | 2) & 2 != 0 && (b | 2) & 1 == b & 1 && (b | 2) & 4 == b & 4 && (b | 2) & 8 == b
            & 8 && (b | 2) & 16 == b & 16 && (b | 2) & 32 == b & 32 && (b | 2) & 64 == b & 64)
            by (bit_vector);
        self.with(POWER, set)
    }

    /// The independent watchdog starved.
    pub fn watchdog(self, set: bool) -> (r: Self)
        ensures
            r@ == (FlagSet { watchdog: self@.watchdog || set, ..self@ }),
    {
        let b: u8 = self.0;
        assert((b | 4) & 4 != 0 && (b | 4) & 1 == b & 1 && (b | 4) & 2 == b & 2 && (b | 4) & 8 == b
            & 8 && (b | 4) & 16 == b & 16 && (b | 4) & 32 == b & 32 && (b | 4) & 64 == b & 64)
            by (bit_vector);
        self.with(WATCHDOG, set)
    }

    /// The window watchdog, which no image starts.
    pub fn window_watchdog(self, set: bool) -> (r: Self)
        ensures
            r@ == (FlagSet { window_watchdog: self@.window_watchdog || set, ..self@ }),
    {
        let b: u8 = self.0;
        assert((b | 8) & 8 != 0 && (b | 8) & 1 == b & 1 && (b | 8) & 2 == b & 2 && (b | 8) & 4 == b
            & 4 && (b | 8) & 16 == b & 16 && (b | 8) & 32 == b & 32 && (b | 8) & 64 == b & 64)
            by (bit_vector);
        self.with(WINDOW_WATCHDOG, set)
    }

    /// A software-requested reset.
    pub fn software(self, set: bool) -> (r: Self)
        ensures
            r@ == (FlagSet { software: self@.software || set, ..self@ }),
    {
        let b: u8 = self.0;
        assert((b | 16) & 16 != 0 && (b | 16) & 1 == b & 1 && (b | 16) & 2 == b & 2 && (b | 16) & 4
            == b & 4 && (b | 16) & 8 == b & 8 && (b | 16) & 32 == b & 32 && (b | 16) & 64 == b & 64)
            by (bit_vector);
        self.with(SOFTWARE, set)
    }

    /// An illegal low-power mode entry.
    pub fn low_power(self, set: bool) -> (r: Self)
        ensures
            r@ == (FlagSet { low_power: self@.low_power || set, ..self@ }),
    {
        let b: u8 = self.0;
        assert((b | 32) & 32 != 0 && (b | 32) & 1 == b & 1 && (b | 32) & 2 == b & 2 && (b | 32) & 4
            == b & 4 && (b | 32) & 8 == b & 8 && (b | 32) & 16 == b & 16 && (b | 32) & 64 == b & 64)
            by (bit_vector);
        self.with(LOW_POWER, set)
    }

    /// An option-byte reload.
    pub fn option_byte(self, set: bool) -> (r: Self)
        ensures
            r@ == (FlagSet { option_byte: self@.option_byte || set, ..self@ }),
    {
        let b: u8 = self.0;
        assert((b | 64) & 64 != 0 && (b | 64) & 1 == b & 1 && (b | 64) & 2 == b & 2 && (b | 64) & 4
            == b & 4 && (b | 64) & 8 == b & 8 && (b | 64) & 16 == b & 16 && (b | 64) & 32 == b & 32)
            by (bit_vector);
        self.with(OPTION_BYTE, set)
    }
}

/// Why the part reset. One cause per boot: the most specific flag wins,
/// because a watchdog reset also raises the pin flag on this family.
#[derive(Debug, Clone, Copy, PartialEq, Eq, Structural)]
pub enum ResetCause {
    /// Power-on, power-down or brown-out. A sagging supply lands here.
    Power,
    /// The reset pin.
    Pin,
    /// The independent watchdog starved: a task stopped checking in.
    Watchdog,
    /// The window watchdog, which no image of ours starts.
    WindowWatchdog,
    /// A software-requested reset: the panic path, or a deliberate one.
    Software,
    /// An illegal low-power mode entry.
    LowPower,
    /// An option-byte reload: the bank flip.
    OptionByte,
}

/// The cause a set of flags names.
pub open spec fn cause_of(flags: FlagSet) -> ResetCause {
    if flags.watchdog {
        ResetCause::Watchdog
    } else if flags.window_watchdog {
        ResetCause::WindowWatchdog
    } else if flags.software {
        ResetCause::Software
    } else if flags.low_power {
        ResetCause::LowPower
    } else if flags.option_byte {
        ResetCause::OptionByte
    } else if flags.pin && !flags.power {
        ResetCause::Pin
    } else {
        ResetCause::Power
    }
}

impl ResetCause {
    /// Decode the flags, the most specific first.
    pub fn from_flags(flags: ResetFlags) -> (r: Self)
        ensures
            r == cause_of(flags@),
    {
        if flags.has(WATCHDOG) {
            ResetCause::Watchdog
        } else if flags.has(WINDOW_WATCHDOG) {
            ResetCause::WindowWatchdog
        } else if flags.has(SOFTWARE) {
            ResetCause::Software
        } else if flags.has(LOW_POWER) {
            ResetCause::LowPower
        } else if flags.has(OPTION_BYTE) {
            ResetCause::OptionByte
        } else if flags.has(PIN) && !flags.has(POWER) {
            ResetCause::Pin
        } else {
            ResetCause::Power
        }
    }
}

/// A starved watchdog is always named, whatever else the register holds, and
/// nothing else is ever named one.
pub proof fn law_a_starvation_is_never_hidden(flags: FlagSet)
    ensures
        cause_of(flags) == ResetCause::Watchdog <==> flags.watchdog,
        cause_of(flags) == ResetCause::Pin ==> flags.pin && !flags.power,
{
}

/// What the backup domain selects as the RTC's clock.
#[derive(Debug, Clone, Copy, PartialEq, Eq, Structural)]
pub enum RtcSource {
    /// No clock: the RTC is not running.
    Unclocked,
    /// The 32.768 kHz crystal.
    Lse,
    /// The internal RC, which does not survive the backup domain.
    Lsi,
    /// The high-speed crystal divided down, which stops with the core.
    Hse,
}

/// The RTC's clock, asserted from the backup domain rather than assumed.
#[derive(Debug, Clone, Copy, PartialEq, Eq, Structural)]
pub enum RtcClock {
    /// The crystal is ready and selected.
    Lse,
    /// Anything else: reported as a fault, never taken as a fallback.
    Fault {
        /// Whether the crystal had started at all.
        lse_ready: bool,
        /// What was selected instead, or as well.
        source: RtcSource,
    },
}

impl RtcClock {
    /// Read the backup domain's answer: only a ready crystal that is also
    /// selected counts.
    pub fn from_backup_domain(lse_ready: bool, source: RtcSource) -> (r: Self)
        ensures
            r == if lse_ready && source == RtcSource::Lse {
                RtcClock::Lse
            } else {
                RtcClock::Fault { lse_ready, source }
            },
    {
        match source {
            RtcSource::Lse => if lse_ready {
                RtcClock::Lse
            } else {
                RtcClock::Fault { lse_ready, source }
            },
            RtcSource::Unclocked | RtcSource::Lsi | RtcSource::Hse => RtcClock::Fault {
                lse_ready,
                source,
            },
        }
    }

    /// Whether the calendar may be read and written: only on a crystal that is
    /// ready and selected.
    pub fn calendar_enabled(self) -> (r: bool)
        ensures
            r == (self is Lse),
    {
        match self {
            RtcClock::Lse => true,
            RtcClock::Fault { .. } => false,
        }
    }
}

/// Whether the RTC's backup domain kept its state through the reset.
#[derive(Debug, Clone, Copy, PartialEq, Eq, Structural)]
pub enum BackupDomain {
    /// The calendar was initialised before this boot and is still running.
    Valid,
    /// The RTC reports it never initialised, or lost it.
    Invalid,
}

/// What a boot writes down about itself, before anything else happens.
#[derive(Debug, Clone, Copy, PartialEq, Eq, Structural)]
pub struct BootRecord {
    /// Why the part reset.
    pub cause: ResetCause,
    /// What the previous run wrote before it stopped, if it did.
    pub blame: Option<Blame>,
    /// What clocks the RTC.
    pub rtc: RtcClock,
    /// Whether the backup domain survived.
    pub backup: BackupDomain,
    /// The board this image was built for.
    pub revision: Revision,
    /// Whether this reset power-cycled the module: on revision A every reset
    /// does, which nobody chose, and the record says so.
    pub module_rail_cycled: bool,
}

impl BootRecord {
    /// Assemble the record from what was read.
    pub fn new(
        cause: ResetCause,
        blame: Option<Blame>,
        rtc: RtcClock,
        backup: BackupDomain,
        revision: Revision,
    ) -> (r: Self)
        ensures
            r.cause == cause,
            r.blame == blame,
            r.rtc == rtc,
            r.backup == backup,
            r.revision == revision,
            r.module_rail_cycled == (revision.spec_rail_through_reset() == RailThroughReset::Off),
    {
        let module_rail_cycled = match revision.rail_through_reset() {
            RailThroughReset::Off => true,
            RailThroughReset::On => false,
        };
        BootRecord { cause, blame, rtc, backup, revision, module_rail_cycled }
    }
}

/// Each cause is named by its own flag, the most specific first: both watchdogs
/// before a software reset, that before an illegal low-power entry and a bank
/// flip, all of them before the pin, and the supply for what is left. The pin's
/// and the supply's flags hide none of the others.
pub proof fn law_the_most_specific_flag_is_the_cause(flags: FlagSet, pin: bool, power: bool)
    ensures
        cause_of(flags) == ResetCause::WindowWatchdog <==> flags.window_watchdog && !flags.watchdog,
        cause_of(flags) == ResetCause::Software <==> flags.software && !flags.watchdog
            && !flags.window_watchdog,
        cause_of(flags) == ResetCause::LowPower <==> flags.low_power && !flags.software
            && !flags.watchdog && !flags.window_watchdog,
        cause_of(flags) == ResetCause::OptionByte <==> flags.option_byte && !flags.low_power
            && !flags.software && !flags.watchdog && !flags.window_watchdog,
        cause_of(flags) == ResetCause::Pin <==> flags.pin && !flags.power && !flags.option_byte
            && !flags.low_power && !flags.software && !flags.watchdog && !flags.window_watchdog,
        cause_of(flags) == ResetCause::Power <==> (flags.power || !flags.pin) && !flags.option_byte
            && !flags.low_power && !flags.software && !flags.watchdog && !flags.window_watchdog,
        cause_of(flags) != ResetCause::Pin && cause_of(flags) != ResetCause::Power ==> cause_of(
            FlagSet { pin, power, ..flags },
        ) == cause_of(flags),
        cause_of(no_flag()) == ResetCause::Power,
{
}

/// The calendar is enabled exactly when the crystal is ready and is what was
/// selected; anything else is a fault that says what was found.
pub proof fn law_only_a_ready_crystal_runs_the_calendar(
    lse_ready: bool,
    source: RtcSource,
    clock: RtcClock,
    enabled: bool,
)
    requires
        call_ensures(RtcClock::from_backup_domain, (lse_ready, source), clock),
        call_ensures(RtcClock::calendar_enabled, (clock,), enabled),
    ensures
        enabled <==> lse_ready && source == RtcSource::Lse,
        !enabled ==> clock == (RtcClock::Fault { lse_ready, source }),
{
}

} // verus!
