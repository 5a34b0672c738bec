//! What a pin read off the part means for the module rail, keyed on the board
//! revision.
//!
//! On revision A the rail's switch defaults off, so a pin nobody drives leaves
//! the rail down; revision B reverses the default. The driven levels keep
//! their meaning on both. So the pin and the rail are two fields, and the rail
//! is a function of the pin and the revision.

use vstd::prelude::*;

use crate::revision::{RailThroughReset, Revision};

verus! {

/// What the pin is doing, as its registers say.
#[derive(Debug, Clone, Copy, PartialEq, Eq, Structural)]
pub enum PinState {
    /// An input, or analog: nobody drives it.
    HighImpedance,
    /// Driven low.
    DrivenLow,
    /// Driven high.
    DrivenHigh,
    /// Handed to a peripheral: what the rail is doing cannot be told.
    Alternate,
}

/// What the rail is doing.
#[derive(Debug, Clone, Copy, PartialEq, Eq, Structural)]
pub enum RailState {
    /// The module is powered.
    On,
    /// The module is not.
    Off,
    /// The pin's state does not say; a reading nobody should act on.
    Unknown,
}

/// The rail readout: the pin as read and the rail it means.
#[derive(Debug, Clone, Copy, PartialEq, Eq, Structural)]
pub struct RailReadout {
    /// The pin.
    pub pin: PinState,
    /// The rail, on this revision.
    pub rail: RailState,
}

impl RailReadout {
    /// What `pin` means for the rail on `revision`.
    pub fn of(revision: Revision, pin: PinState) -> (r: Self)
        ensures
            r.pin == pin,
            r.rail == RailState::On <==> pin == PinState::DrivenHigh || (pin
                == PinState::HighImpedance && revision.spec_rail_through_reset()
                == RailThroughReset::On),
            r.rail == RailState::Unknown <==> pin == PinState::Alternate,
    {
        let rail = match pin {
            PinState::DrivenHigh => RailState::On,
            PinState::DrivenLow => RailState::Off,
            PinState::HighImpedance => match revision.rail_through_reset() {
                RailThroughReset::Off => RailState::Off,
                RailThroughReset::On => RailState::On,
            },
            PinState::Alternate => RailState::Unknown,
        };
        RailReadout { pin, rail }
    }
}

} // verus!
