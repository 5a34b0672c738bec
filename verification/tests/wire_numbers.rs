//! The numbers and limits the library names are those of the wire.

use km43::{ClientCapability, ConfigSection, ErrorCode, EventKind, LinkErrorCode, MessageType};
use o89_core::clients::{self, Role};
use o89_core::concern::{ConcernState, ElementAt, Severity};
use o89_core::reading::{Provenance, Validity};
use o89_core::request;
use o89_core::req_window;
use o89_core::session_state;
use o89_core::session_steps as steps;
use o89_core::site;
use o89_core::site_rows::{self, Direction, RowKind, SignalDomain, Transport, Vtype};
use o89_core::topology;
use o89_core::wire;

#[test]
fn the_limits_are_the_protocols() {
    assert_eq!(session_state::CONNECTIONS, km43::MAX_SESSIONS);
    assert_eq!(session_state::FAILURES, usize::from(km43::MAX_AUTH_FAILURES));
    assert_eq!(session_state::MAX_FRAME, km43::MAX_FRAME);
    assert_eq!(session_state::LABEL_BYTES, km43::MAX_LABEL);
    assert_eq!(clients::SLOTS, km43::MAX_CLIENTS);
    assert_eq!(req_window::MAX_INFLIGHT, km43::MAX_INFLIGHT);
    assert_eq!(request::OPERATION_CAP, km43::MAX_OPERATION);
    assert_eq!(site_rows::MAX_ADDR, km43::MAX_ADDR);
    assert_eq!(wire::PAGE_ROWS, km43::MAX_INVENTORY_PAGE_ROWS);
    assert_eq!(wire::PAGE_BYTES, km43::MAX_INVENTORY_PAGE_BYTES);
    assert_eq!(wire::ROW_BYTES, km43::MAX_ROW_BYTES);
    assert_eq!(wire::READINGS_ROWS, km43::MAX_SAMPLES);
    assert_eq!(wire::READINGS_BYTES, km43::MAX_READINGS_BYTES);
    assert_eq!(wire::SWEEP_CAP, km43::MAX_VALIDITY_SWEEP);
    assert_eq!(
        usize::from(km43::Topology::THIS_CONTROLLER.devices),
        topology::SITE_DEVICES
    );
    assert_eq!(site::TICK_RECORDS, 7);
}

#[test]
fn the_error_codes_are_the_protocols() {
    let pairs = [
        (steps::MALFORMED, ErrorCode::MalformedFrame),
        (steps::UNKNOWN_TYPE, ErrorCode::UnknownMessageType),
        (steps::HELLO_FIRST, ErrorCode::HelloRequiredFirst),
        (steps::TOO_LARGE, ErrorCode::PayloadTooLarge),
        (steps::BUSY, ErrorCode::BusyRetry),
        (steps::EXPIRED, ErrorCode::SessionExpired),
        (steps::AUTH_FAILED, ErrorCode::AuthenticationFailed),
        (steps::UNKNOWN_CLIENT, ErrorCode::UnknownClient),
        (
            steps::STALE_CHALLENGE,
            ErrorCode::StaleChallengeReconnectAndRetry,
        ),
        (steps::NO_CHALLENGE, ErrorCode::ChallengeUnavailable),
        (steps::NOT_PERMITTED, ErrorCode::RoleNotPermitted),
        (request::BUSY_RETRY, ErrorCode::BusyRetry),
        (request::MALFORMED_FRAME, ErrorCode::MalformedFrame),
        (request::PAYLOAD_TOO_LARGE, ErrorCode::PayloadTooLarge),
    ];
    for (held, code) in pairs {
        assert_eq!(held, code as u16, "{code:?}");
    }
    assert_eq!(steps::LINK_CODES, LinkErrorCode::WrongSide as u16);
    assert_eq!(
        steps::LINK_TYPE,
        LinkErrorCode::LinkTypeOnClientTransport as u16
    );
    assert_eq!(steps::BEFORE_LINK_UP, LinkErrorCode::BeforeLinkUp as u16);
    assert_eq!(steps::UNKNOWN_HANDLE, LinkErrorCode::UnknownHandle as u16);
}

#[test]
fn the_message_kinds_are_the_protocols() {
    let pairs = [
        (steps::DISCOVER, MessageType::Discover),
        (steps::HELLO, MessageType::Hello),
        (steps::GET_CONFIG, MessageType::GetConfig),
        (steps::PAIR, MessageType::Pair),
        (steps::GOODBYE, MessageType::Goodbye),
        (steps::WIFI_SCAN, MessageType::WifiScan),
        (steps::WIFI_STATUS, MessageType::WifiStatus),
        (steps::ENROL, MessageType::Enrol),
        (steps::VOUCH, MessageType::Vouch),
        (steps::GET_CONFIG_RESPONSE, MessageType::GetConfigResponse),
        (steps::SET_CONFIG_RESPONSE, MessageType::SetConfigResponse),
        (steps::COMMAND_RESPONSE, MessageType::CommandResponse),
        (steps::TIME_RESPONSE, MessageType::TimeResponse),
        (steps::GOODBYE_RESPONSE, MessageType::GoodbyeResponse),
        (steps::WIFI_SCAN_RESPONSE, MessageType::WifiScanResponse),
        (steps::WIFI_STATUS_RESPONSE, MessageType::WifiStatusResponse),
        (steps::VOUCH_RESPONSE, MessageType::VouchResponse),
        (steps::ERROR, MessageType::ErrorResponse),
        (request::SET_CONFIG, MessageType::SetConfig),
        (request::COMMAND, MessageType::Command),
        (request::FIRMWARE, MessageType::Firmware),
        (request::TIME, MessageType::Time),
    ];
    for (held, kind) in pairs {
        assert_eq!(held, kind as u8, "{kind:?}");
    }
    assert_eq!(steps::NETWORK_SECTION, ConfigSection::Network as u16);
    assert_eq!(steps::CLOUD_SECTION, ConfigSection::Cloud as u16);
}

#[test]
fn a_roles_mask_is_the_protocols() {
    let pairs = [
        (Role::Owner, km43::Role::Owner),
        (Role::Admin, km43::Role::Admin),
        (Role::Viewer, km43::Role::Viewer),
    ];
    for (held, role) in pairs {
        assert_eq!(held.mask(), ClientCapability::granted(role).0);
    }
    assert_eq!(clients::WRITE_CONFIG, ClientCapability::WRITE_CONFIG.0);
    assert_eq!(
        clients::WRITE_NETWORK_AND_CLOUD,
        ClientCapability::WRITE_NETWORK_AND_CLOUD.0
    );
    assert_eq!(clients::SET_CLOCK, ClientCapability::SET_CLOCK.0);
    assert_eq!(clients::READ_PRIVATE, ClientCapability::READ_PRIVATE.0);
}

#[test]
fn the_event_kinds_are_the_protocols() {
    let pairs = [
        (
            site_rows::SIGNAL_VALIDITY_CHANGED,
            EventKind::SIGNAL_VALIDITY_CHANGED,
        ),
        (site_rows::CONCERN_RAISED, EventKind::CONCERN_RAISED),
        (site_rows::CONCERN_CHANGED, EventKind::CONCERN_CHANGED),
        (site_rows::TOPOLOGY_CHANGED, EventKind::TOPOLOGY_CHANGED),
        (
            site_rows::DEVICE_PRESENCE_CHANGED,
            EventKind::DEVICE_PRESENCE_CHANGED,
        ),
    ];
    for (held, kind) in pairs {
        assert_eq!(held, kind.0);
    }
}

#[test]
fn what_a_row_spells_is_the_protocols() {
    assert_eq!(Transport::Rs485.number(), km43::Transport::Rs485 as u8);
    assert_eq!(Transport::Can.number(), km43::Transport::Can as u8);
    assert_eq!(Transport::VeDirect.number(), km43::Transport::VeDirect as u8);
    assert_eq!(Transport::LocalIo.number(), km43::Transport::LocalIo as u8);
    assert_eq!(Transport::Ip.number(), km43::Transport::Ip as u8);
    assert_eq!(Transport::Onewire.number(), km43::Transport::Onewire as u8);
    assert_eq!(Transport::Internal.number(), km43::Transport::Internal as u8);
    assert_eq!(Vtype::Gauge.number(), km43::Vtype::Gauge as u8);
    assert_eq!(Vtype::Counter.number(), km43::Vtype::Counter as u8);
    assert_eq!(Vtype::Enum.number(), km43::Vtype::Enum as u8);
    assert_eq!(Vtype::Flags.number(), km43::Vtype::Flags as u8);
    assert_eq!(SignalDomain::Live.number(), km43::SignalDomain::Live as u8);
    assert_eq!(
        SignalDomain::LimitUpper.number(),
        km43::SignalDomain::LimitUpper as u8
    );
    assert_eq!(SignalDomain::Min.number(), km43::SignalDomain::Min as u8);
    assert_eq!(
        Direction::PositiveIsIn.number(),
        km43::Direction::PositiveIsIn as u8
    );
    assert_eq!(
        Direction::MagnitudeOnly.number(),
        km43::Direction::MagnitudeOnly as u8
    );
}

#[test]
fn a_kind_reads_back_from_its_number_and_the_sixth_is_nobodys() {
    for kind in [
        RowKind::Bus,
        RowKind::Device,
        RowKind::Component,
        RowKind::Signal,
        RowKind::Param,
    ] {
        assert_eq!(RowKind::from_number(kind.number()), Some(kind));
        assert!(km43::InventoryKind::try_from(kind.number()).is_ok());
    }
    assert_eq!(RowKind::from_number(0), None);
    assert_eq!(RowKind::from_number(6), None);
}

#[test]
fn every_validity_and_provenance_is_the_protocols() {
    for number in 0..=255u8 {
        let validity = Validity::from_number(number);
        assert_eq!(validity.is_some(), km43::Validity::try_from(number).is_ok());
        if let Some(validity) = validity {
            assert_eq!(validity.number(), number);
        }
        let provenance = Provenance::from_number(number);
        assert_eq!(
            provenance.is_some(),
            km43::Provenance::try_from(number).is_ok()
        );
        if let Some(provenance) = provenance {
            assert_eq!(provenance.number(), number);
        }
    }
    assert_eq!(Validity::Current.number(), km43::Validity::Ok as u8);
    assert_eq!(Validity::Absent.number(), km43::Validity::Absent as u8);
    assert_eq!(Provenance::Nowhere.number(), km43::Provenance::None as u8);
    assert_eq!(
        Provenance::Estimated.number(),
        km43::Provenance::Estimated as u8
    );
}

#[test]
fn what_a_concern_spells_is_the_protocols() {
    let severities = [
        (Severity::Info, km43::Severity::Info),
        (Severity::Warning, km43::Severity::Warning),
        (Severity::Fault, km43::Severity::Fault),
        (Severity::Protection, km43::Severity::Protection),
    ];
    for (held, severity) in severities {
        assert_eq!(held.number(), severity as u8);
    }
    let states = [
        (ConcernState::Active, km43::ConcernState::Active),
        (ConcernState::ActiveAcked, km43::ConcernState::ActiveAcked),
        (
            ConcernState::LatchedCleared,
            km43::ConcernState::LatchedCleared,
        ),
        (
            ConcernState::ClearingBlocked,
            km43::ConcernState::ClearingBlocked,
        ),
        (ConcernState::Cleared, km43::ConcernState::Cleared),
    ];
    for (held, state) in states {
        assert_eq!(held.number(), state as u8);
    }
    for position in 0..=255u8 {
        assert_eq!(
            ElementAt::new(position).is_some(),
            km43::ElementAt::new(position).is_ok()
        );
    }
}
