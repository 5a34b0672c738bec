//! What a pin's state says of the rail.

use o89_core::readout::{PinState, RailReadout, RailState};
use o89_core::revision::Revision;

#[test]
fn f_014_a_high_impedance_pin_is_the_rail_off_on_revision_a_and_on_on_revision_b() {
    assert_eq!(
        RailReadout::of(Revision::A, PinState::HighImpedance).rail,
        RailState::Off
    );
    assert_eq!(
        RailReadout::of(Revision::B, PinState::HighImpedance).rail,
        RailState::On
    );
}

#[test]
fn f_014_the_driven_levels_keep_their_meaning_on_both_revisions() {
    for revision in [Revision::A, Revision::B] {
        assert_eq!(
            RailReadout::of(revision, PinState::DrivenHigh).rail,
            RailState::On
        );
        assert_eq!(
            RailReadout::of(revision, PinState::DrivenLow).rail,
            RailState::Off
        );
    }
}

#[test]
fn a_pin_handed_to_a_peripheral_says_the_rail_is_unknown_on_both_revisions() {
    for revision in [Revision::A, Revision::B] {
        assert_eq!(
            RailReadout::of(revision, PinState::Alternate).rail,
            RailState::Unknown
        );
    }
}

#[test]
fn the_readout_carries_the_pin_it_was_read_from() {
    let readout = RailReadout::of(Revision::B, PinState::HighImpedance);
    assert_eq!(readout.pin, PinState::HighImpedance);
    assert_eq!(readout.rail, RailState::On);
}
