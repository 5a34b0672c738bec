//! The numbers that stand for things on the wire and in the store: each thing
//! has its own, and keeps it.

use crate::clients::Role;
use crate::reading::{Provenance, QualityError, Sample, SignalQuality, Validity};
use crate::run_reason::Behaviour;
use crate::session_wire::{
    Command, PairRefusal, SetConfig, TimeOutcome,
};
use crate::site_rows::{
    Direction, InventoryOutcome, Presence, ReadingsOutcome, RowKind, SignalDomain, TopologyChangeReason, Transport, Vtype,
};
use vstd::prelude::*;

verus! {

/// A validity is told by its number, and no two share one.
pub proof fn law_the_numbers_of_validity(a: Validity, b: Validity)
    ensures
        a.spec_number() == b.spec_number() <==> a == b,
        a.spec_number() == 1 <==> a == Validity::Current,
        a.spec_number() == 2 <==> a == Validity::Stale,
        a.spec_number() == 3 <==> a == Validity::Initialising,
        a.spec_number() == 4 <==> a == Validity::Unsupported,
        a.spec_number() == 5 <==> a == Validity::SensorFault,
        a.spec_number() == 6 <==> a == Validity::OutOfRange,
        a.spec_number() == 7 <==> a == Validity::Absent,
        a.spec_number() == 8 <==> a == Validity::UnnamedState,
{
}

/// A provenance is told by its number, and no two share one.
pub proof fn law_the_numbers_of_provenance(a: Provenance, b: Provenance)
    ensures
        a.spec_number() == b.spec_number() <==> a == b,
        a.spec_number() == 0 <==> a == Provenance::Nowhere,
        a.spec_number() == 1 <==> a == Provenance::Measured,
        a.spec_number() == 2 <==> a == Provenance::Counted,
        a.spec_number() == 3 <==> a == Provenance::Derived,
        a.spec_number() == 4 <==> a == Provenance::Estimated,
        a.spec_number() == 5 <==> a == Provenance::Reported,
        a.spec_number() == 6 <==> a == Provenance::Commanded,
{
}

/// A transport is told by its number, and no two share one.
pub proof fn law_the_numbers_of_transport(a: Transport, b: Transport)
    ensures
        a.spec_number() == b.spec_number() <==> a == b,
        a.spec_number() == 1 <==> a == Transport::Rs485,
        a.spec_number() == 2 <==> a == Transport::Can,
        a.spec_number() == 3 <==> a == Transport::VeDirect,
        a.spec_number() == 4 <==> a == Transport::LocalIo,
        a.spec_number() == 5 <==> a == Transport::Ip,
        a.spec_number() == 6 <==> a == Transport::Onewire,
        a.spec_number() == 7 <==> a == Transport::Internal,
{
}

/// A kind of row is told by its number, and no two share one.
pub proof fn law_the_numbers_of_row_kind(a: RowKind, b: RowKind)
    ensures
        a.spec_number() == b.spec_number() <==> a == b,
        a.spec_number() == 1 <==> a == RowKind::Bus,
        a.spec_number() == 2 <==> a == RowKind::Device,
        a.spec_number() == 3 <==> a == RowKind::Component,
        a.spec_number() == 4 <==> a == RowKind::Signal,
        a.spec_number() == 5 <==> a == RowKind::Param,
{
}

/// A type of value is told by its number, and no two share one.
pub proof fn law_the_numbers_of_vtype(a: Vtype, b: Vtype)
    ensures
        a.spec_number() == b.spec_number() <==> a == b,
        a.spec_number() == 1 <==> a == Vtype::Gauge,
        a.spec_number() == 2 <==> a == Vtype::Counter,
        a.spec_number() == 3 <==> a == Vtype::Enum,
        a.spec_number() == 4 <==> a == Vtype::Flags,
{
}

/// A domain is told by its number, and no two share one.
pub proof fn law_the_numbers_of_signal_domain(a: SignalDomain, b: SignalDomain)
    ensures
        a.spec_number() == b.spec_number() <==> a == b,
        a.spec_number() == 1 <==> a == SignalDomain::Live,
        a.spec_number() == 2 <==> a == SignalDomain::Lifetime,
        a.spec_number() == 3 <==> a == SignalDomain::SinceReset,
        a.spec_number() == 4 <==> a == SignalDomain::Today,
        a.spec_number() == 5 <==> a == SignalDomain::Yesterday,
        a.spec_number() == 6 <==> a == SignalDomain::LimitUpper,
        a.spec_number() == 7 <==> a == SignalDomain::LimitLower,
        a.spec_number() == 8 <==> a == SignalDomain::Max,
        a.spec_number() == 9 <==> a == SignalDomain::Min,
{
}

/// A direction is told by its number, and no two share one.
pub proof fn law_the_numbers_of_direction(a: Direction, b: Direction)
    ensures
        a.spec_number() == b.spec_number() <==> a == b,
        a.spec_number() == 1 <==> a == Direction::PositiveIsIn,
        a.spec_number() == 2 <==> a == Direction::PositiveIsOut,
        a.spec_number() == 3 <==> a == Direction::MagnitudeOnly,
{
}

/// A reason for a topology change is told by its number, and no two share one.
pub proof fn law_the_numbers_of_topology_change_reason(a: TopologyChangeReason, b: TopologyChangeReason)
    ensures
        a.spec_number() == b.spec_number() <==> a == b,
        a.spec_number() == 1 <==> a == TopologyChangeReason::Boot,
        a.spec_number() == 2 <==> a == TopologyChangeReason::ConfigWrite,
        a.spec_number() == 3 <==> a == TopologyChangeReason::SubDeviceAdopted,
        a.spec_number() == 4 <==> a == TopologyChangeReason::SubDeviceRemoved,
        a.spec_number() == 5 <==> a == TopologyChangeReason::DeviceReplaced,
{
}

/// How a request for rows is answered is told by its number, and no two share one.
pub proof fn law_the_numbers_of_inventory_outcome(a: InventoryOutcome, b: InventoryOutcome)
    ensures
        a.spec_number() == b.spec_number() <==> a == b,
        a.spec_number() == 1 <==> a == InventoryOutcome::Answered,
        a.spec_number() == 2 <==> a == InventoryOutcome::Superseded,
        a.spec_number() == 3 <==> a == InventoryOutcome::UnknownKind,
        a.spec_number() == 4 <==> a == InventoryOutcome::OutOfRange,
{
}

/// How a request for readings is answered is told by its number, and no two share one.
pub proof fn law_the_numbers_of_readings_outcome(a: ReadingsOutcome, b: ReadingsOutcome)
    ensures
        a.spec_number() == b.spec_number() <==> a == b,
        a.spec_number() == 1 <==> a == ReadingsOutcome::Answered,
        a.spec_number() == 2 <==> a == ReadingsOutcome::Superseded,
        a.spec_number() == 3 <==> a == ReadingsOutcome::UnknownSelector,
        a.spec_number() == 4 <==> a == ReadingsOutcome::OutOfRange,
{
}

/// A presence is told by its number, and no two share one.
pub proof fn law_the_numbers_of_presence(a: Presence, b: Presence)
    ensures
        a.spec_number() == b.spec_number() <==> a == b,
        a.spec_number() == 1 <==> a == Presence::Online,
        a.spec_number() == 2 <==> a == Presence::Degraded,
        a.spec_number() == 3 <==> a == Presence::Offline,
        a.spec_number() == 4 <==> a == Presence::NeverSeen,
{
}

/// A refusal to pair is told by its number, and no two share one.
pub proof fn law_the_numbers_of_pair_refusal(a: PairRefusal, b: PairRefusal)
    ensures
        a.spec_number() == b.spec_number() <==> a == b,
        a.spec_number() == 2 <==> a == PairRefusal::WindowClosed,
        a.spec_number() == 4 <==> a == PairRefusal::TableFull,
{
}

/// A command's outcome is told by its number, and no two share one.
pub proof fn law_the_numbers_of_command(a: Command, b: Command)
    ensures
        a.spec_number() == b.spec_number() <==> a == b,
        a.spec_number() == 1 <==> a == Command::Accepted,
        a.spec_number() == 2 <==> a == Command::Rejected,
        a.spec_number() == 3 <==> a == Command::Duplicate,
        a.spec_number() == 4 <==> a == Command::Inhibited,
        a.spec_number() == 5 <==> a == Command::Unauthorised,
        a.spec_number() == 6 <==> a == Command::Shadowed,
        a.spec_number() == 7 <==> a == Command::StaleTopology,
        a.spec_number() == 8 <==> a == Command::WrongTarget,
{
}

/// The outcome of a clock's setting is told by its number, and no two share one.
pub proof fn law_the_numbers_of_time_outcome(a: TimeOutcome, b: TimeOutcome)
    ensures
        a.spec_number() == b.spec_number() <==> a == b,
        a.spec_number() == 1 <==> a == TimeOutcome::Accepted,
        a.spec_number() == 2 <==> a == TimeOutcome::Rejected,
        a.spec_number() == 3 <==> a == TimeOutcome::Unauthorised,
        a.spec_number() == 4 <==> a == TimeOutcome::NeedsButton,
{
}

/// The outcome of a section's write is told by its number, and no two share one.
pub proof fn law_the_numbers_of_set_config(a: SetConfig, b: SetConfig)
    ensures
        a.spec_number() == b.spec_number() <==> a == b,
        a.spec_number() == 1 <==> a == SetConfig::Accepted,
        a.spec_number() == 2 <==> a == SetConfig::StaleVersion,
        a.spec_number() == 3 <==> a == SetConfig::Invalid,
        a.spec_number() == 4 <==> a == SetConfig::Unauthorised,
        a.spec_number() == 5 <==> a == SetConfig::ExceedsCap,
        a.spec_number() == 9 <==> a == SetConfig::Staged,
{
}

/// A behaviour is told by its number, and no two share one.
pub proof fn law_the_numbers_of_behaviour(a: Behaviour, b: Behaviour)
    ensures
        a.spec_code() == b.spec_code() <==> a == b,
        a.spec_code() == 1 <==> a == Behaviour::Generator,
        a.spec_code() == 2 <==> a == Behaviour::Frost,
        a.spec_code() == 3 <==> a == Behaviour::Schedule,
        a.spec_code() == 4 <==> a == Behaviour::LoadShed,
{
}

/// A role is told by its number, and no two share one.
pub proof fn law_the_numbers_of_role(a: Role, b: Role)
    ensures
        a.spec_number() == b.spec_number() <==> a == b,
        a.spec_number() == 1 <==> a == Role::Owner,
        a.spec_number() == 2 <==> a == Role::Admin,
        a.spec_number() == 3 <==> a == Role::Viewer,
{
}

/// A number that stands for no validity or provenance is read as none, and one
/// that does is read as the one it stands for.
pub proof fn law_only_numbers_given_out_are_read(number: u8)
    ensures
        Validity::spec_from(number) is Some <==> 1 <= number <= 8,
        Validity::spec_from(number) matches Some(validity) ==> validity.spec_number() == number,
        Provenance::spec_from(number) is Some <==> number <= 6,
        Provenance::spec_from(number) matches Some(provenance) ==> provenance.spec_number()
            == number,
        RowKind::spec_of(number) is Some <==> 1 <= number <= 5,
        RowKind::spec_of(number) matches Some(kind) ==> kind.spec_number() == number,
{
}

/// A reading carries a value when it is current or stale, and at no other time.
pub proof fn law_two_validities_carry_a_value(validity: Validity)
    ensures
        validity.spec_has_value() <==> validity == Validity::Current || validity
            == Validity::Stale,
{
}

/// A byte is a quality exactly when both halves stand for something and a
/// provenance is named just where there is a value; the validity is its high
/// half and the provenance its low one.
pub proof fn law_a_byte_is_its_two_halves(raw: u8)
    ensures
        SignalQuality::spec_from_byte(raw) is Some <==> 0x11 <= raw <= 0x16 || 0x21 <= raw <= 0x26
            || (0x30 <= raw <= 0x80 && raw % 16 == 0),
        SignalQuality::spec_from_byte(raw) matches Some(q) ==> {
            &&& q.spec_byte() == raw
            &&& q.validity().spec_number() == raw / 16
            &&& q.provenance().spec_number() == raw % 16
        },
{
    broadcast use SignalQuality::halves;

}

/// A sample is refused exactly where its value or its age contradicts its
/// quality, each way under its own name: a value goes with a current or a stale
/// reading, an age with a stale one.
pub proof fn law_a_sample_is_refused_for_its_contradiction(
    q: SignalQuality,
    value: Option<i32>,
    age: Option<u32>,
)
    ensures
        ({
            let refused = Sample::spec_refused(q, value, age);
            let carries = q.validity() == Validity::Current || q.validity() == Validity::Stale;
            let stale = q.validity() == Validity::Stale;
            &&& refused is None <==> (carries <==> value is Some) && (stale <==> age is Some)
            &&& refused == Some(QualityError::ValueOmitted(q.validity())) <==> carries && value
                is None
            &&& refused == Some(QualityError::NoValueToCarry(q.validity())) <==> !carries && value
                is Some
            &&& refused == Some(QualityError::StaleWithoutAge) <==> stale && value is Some && age
                is None
        }),
{
}

} // verus!
