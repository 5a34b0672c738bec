//! The rows a site is described by, and the requests and answers about them,
//! as plain values.

use crate::reading::Id;
use crate::signals::Limits;
use vstd::prelude::*;

verus! {

/// The most bytes a bus address takes.
pub const MAX_ADDR: usize = 8;

/// What a bus physically is.
#[derive(Debug, Clone, Copy, PartialEq, Eq, Structural)]
pub enum Transport {
    /// RS-485.
    Rs485,
    /// CAN.
    Can,
    /// VE.Direct.
    VeDirect,
    /// The controller's own inputs and outputs.
    LocalIo,
    /// IP.
    Ip,
    /// 1-Wire.
    Onewire,
    /// Inside the controller.
    Internal,
}

impl Transport {
    /// The number the wire spells it as.
    pub open spec fn spec_number(self) -> u8 {
        match self {
            Transport::Rs485 => 1,
            Transport::Can => 2,
            Transport::VeDirect => 3,
            Transport::LocalIo => 4,
            Transport::Ip => 5,
            Transport::Onewire => 6,
            Transport::Internal => 7,
        }
    }

    /// The number the wire spells it as.
    pub fn number(self) -> (r: u8)
        ensures
            r == self.spec_number(),
    {
        match self {
            Transport::Rs485 => 1,
            Transport::Can => 2,
            Transport::VeDirect => 3,
            Transport::LocalIo => 4,
            Transport::Ip => 5,
            Transport::Onewire => 6,
            Transport::Internal => 7,
        }
    }

    /// Whether devices on it are told apart by an address.
    pub open spec fn addressed(self) -> bool {
        self is Rs485 || self is Can || self is Ip
    }
}

/// Which of the tables a row belongs to.
#[derive(Debug, Clone, Copy, PartialEq, Eq, Structural)]
pub enum RowKind {
    /// A bus.
    Bus,
    /// A device.
    Device,
    /// A component.
    Component,
    /// A signal.
    Signal,
    /// A parameter.
    Param,
}

impl RowKind {
    /// The number a request names it by.
    pub open spec fn spec_number(self) -> u8 {
        match self {
            RowKind::Bus => 1,
            RowKind::Device => 2,
            RowKind::Component => 3,
            RowKind::Signal => 4,
            RowKind::Param => 5,
        }
    }

    /// The kind a number names.
    pub open spec fn spec_of(what: u8) -> Option<RowKind> {
        if what == 1 {
            Some(RowKind::Bus)
        } else if what == 2 {
            Some(RowKind::Device)
        } else if what == 3 {
            Some(RowKind::Component)
        } else if what == 4 {
            Some(RowKind::Signal)
        } else if what == 5 {
            Some(RowKind::Param)
        } else {
            None
        }
    }

    /// The number a request names it by.
    pub fn number(self) -> (r: u8)
        ensures
            r == self.spec_number(),
    {
        match self {
            RowKind::Bus => 1,
            RowKind::Device => 2,
            RowKind::Component => 3,
            RowKind::Signal => 4,
            RowKind::Param => 5,
        }
    }

    /// The kind a number names, or nothing for one no table has.
    pub fn from_number(what: u8) -> (r: Option<Self>)
        ensures
            r == RowKind::spec_of(what),
    {
        match what {
            1 => Some(RowKind::Bus),
            2 => Some(RowKind::Device),
            3 => Some(RowKind::Component),
            4 => Some(RowKind::Signal),
            5 => Some(RowKind::Param),
            _ => None,
        }
    }
}

/// What a value of a signal is.
#[derive(Debug, Clone, Copy, PartialEq, Eq, Structural)]
pub enum Vtype {
    /// A number that goes up and down.
    Gauge,
    /// A number that goes up.
    Counter,
    /// A member of an enumeration.
    Enum,
    /// A set of flags.
    Flags,
}

impl Vtype {
    /// The number the wire spells it as.
    pub open spec fn spec_number(self) -> u8 {
        match self {
            Vtype::Gauge => 1,
            Vtype::Counter => 2,
            Vtype::Enum => 3,
            Vtype::Flags => 4,
        }
    }

    /// The number the wire spells it as.
    pub fn number(self) -> (r: u8)
        ensures
            r == self.spec_number(),
    {
        match self {
            Vtype::Gauge => 1,
            Vtype::Counter => 2,
            Vtype::Enum => 3,
            Vtype::Flags => 4,
        }
    }
}

/// Whether a number is now, yesterday's, or a limit.
#[derive(Debug, Clone, Copy, PartialEq, Eq, Structural)]
pub enum SignalDomain {
    /// Now.
    Live,
    /// Since it was made.
    Lifetime,
    /// Since it was reset.
    SinceReset,
    /// Today.
    Today,
    /// Yesterday.
    Yesterday,
    /// An upper limit.
    LimitUpper,
    /// A lower limit.
    LimitLower,
    /// The most it was.
    Max,
    /// The least it was.
    Min,
}

impl SignalDomain {
    /// The number the wire spells it as.
    pub open spec fn spec_number(self) -> u8 {
        match self {
            SignalDomain::Live => 1,
            SignalDomain::Lifetime => 2,
            SignalDomain::SinceReset => 3,
            SignalDomain::Today => 4,
            SignalDomain::Yesterday => 5,
            SignalDomain::LimitUpper => 6,
            SignalDomain::LimitLower => 7,
            SignalDomain::Max => 8,
            SignalDomain::Min => 9,
        }
    }

    /// The number the wire spells it as.
    pub fn number(self) -> (r: u8)
        ensures
            r == self.spec_number(),
    {
        match self {
            SignalDomain::Live => 1,
            SignalDomain::Lifetime => 2,
            SignalDomain::SinceReset => 3,
            SignalDomain::Today => 4,
            SignalDomain::Yesterday => 5,
            SignalDomain::LimitUpper => 6,
            SignalDomain::LimitLower => 7,
            SignalDomain::Max => 8,
            SignalDomain::Min => 9,
        }
    }
}

/// Which way a flow counts as positive.
#[derive(Debug, Clone, Copy, PartialEq, Eq, Structural)]
pub enum Direction {
    /// Into the device.
    PositiveIsIn,
    /// Out of the device.
    PositiveIsOut,
    /// No direction.
    MagnitudeOnly,
}

impl Direction {
    /// The number the wire spells it as.
    pub open spec fn spec_number(self) -> u8 {
        match self {
            Direction::PositiveIsIn => 1,
            Direction::PositiveIsOut => 2,
            Direction::MagnitudeOnly => 3,
        }
    }

    /// The number the wire spells it as.
    pub fn number(self) -> (r: u8)
        ensures
            r == self.spec_number(),
    {
        match self {
            Direction::PositiveIsIn => 1,
            Direction::PositiveIsOut => 2,
            Direction::MagnitudeOnly => 3,
        }
    }
}

/// What a device is, by its maker.
#[derive(Debug, Clone, Copy, PartialEq, Eq, Structural)]
pub struct Product(pub u16);

/// What a device speaks.
#[derive(Debug, Clone, Copy, PartialEq, Eq, Structural)]
pub struct Dialect(pub u16);

/// What a device is for.
#[derive(Debug, Clone, Copy, PartialEq, Eq, Structural)]
pub struct DeviceRole(pub u16);

/// What a component is for.
#[derive(Debug, Clone, Copy, PartialEq, Eq, Structural)]
pub struct ComponentRole(pub u16);

/// What a signal measures.
#[derive(Debug, Clone, Copy, PartialEq, Eq, Structural)]
pub struct MetricKind(pub u16);

/// Where it measures it.
#[derive(Debug, Clone, Copy, PartialEq, Eq, Structural)]
pub struct MeasurementPoint(pub u16);

/// The space an enumeration or a set of flags draws on.
#[derive(Debug, Clone, Copy, PartialEq, Eq, Structural)]
pub struct EnumSpace(pub u16);

/// A bus address as the bus defines one, at most [`MAX_ADDR`] bytes.
#[derive(Debug, Clone, Copy, PartialEq, Eq)]
pub struct DeviceAddress {
    bytes: [u8; 8],
    len: u8,
}

impl View for DeviceAddress {
    type V = Seq<u8>;

    closed spec fn view(&self) -> Seq<u8> {
        self.bytes@.subrange(0, self.len as int)
    }
}

impl DeviceAddress {
    #[verifier::type_invariant]
    spec fn bounded(self) -> bool {
        0 < self.len <= MAX_ADDR
    }

    /// `None` for an empty address or one longer than [`MAX_ADDR`].
    pub fn new(bytes: &[u8]) -> (r: Option<Self>)
        ensures
            r is None <==> bytes@.len() == 0 || bytes@.len() > MAX_ADDR,
            r matches Some(addr) ==> addr@ == bytes@,
    {
        if bytes.len() == 0 || bytes.len() > MAX_ADDR {
            return None;
        }
        let mut held: [u8; 8] = [0; 8];
        let mut i: usize = 0;
        while i < bytes.len()
            invariant
                i <= bytes@.len() <= MAX_ADDR,
                forall|j: int| 0 <= j < i ==> held@[j] == bytes@[j],
            decreases bytes@.len() - i,
        {
            held[i] = bytes[i];
            i = i + 1;
        }
        let addr = DeviceAddress { bytes: held, len: bytes.len() as u8 };
        proof {
            assert(addr@ =~= bytes@);
        }
        Some(addr)
    }

    /// The bytes.
    pub fn as_bytes(&self) -> (r: &[u8])
        ensures
            r@ == self@,
    {
        proof {
            use_type_invariant(self);
        }
        &self.bytes.as_slice()[0..self.len as usize]
    }
}

/// One value of a row, as it goes out.
#[derive(Debug, Clone, Copy, PartialEq, Eq)]
pub enum Cell {
    /// One byte.
    U8(u8),
    /// Two bytes.
    U16(u16),
    /// Four bytes.
    U32(u32),
    /// An address.
    Bytes(DeviceAddress),
    /// Not in this row.
    Absent,
}

/// A bus.
#[derive(Debug, Clone, Copy, PartialEq, Eq, Structural)]
pub struct SiteBus {
    /// Its id; zero is the controller's own inputs and outputs.
    pub bus: u8,
    /// What it physically is.
    pub transport: Transport,
    /// The baud or bitrate, when it has one.
    pub rate: Option<u32>,
}

/// A device as configuration declares it.
#[derive(Debug, Clone, Copy, PartialEq, Eq)]
pub struct SiteDevice {
    /// Its id; zero is the controller itself.
    pub dev: u16,
    /// The bus it is on.
    pub bus: u8,
    /// Its address, required on an addressed transport and its own on its bus.
    pub addr: Option<DeviceAddress>,
    /// What it is, by its maker.
    pub product: Product,
    /// What it speaks.
    pub dialect: Dialect,
    /// What it is for.
    pub role: DeviceRole,
    /// The device this is a sub-device of.
    pub parent: Option<u16>,
}

/// One part of a device.
#[derive(Debug, Clone, Copy, PartialEq, Eq, Structural)]
pub struct SiteComponent {
    /// Its id.
    pub comp: Id,
    /// The device it is part of.
    pub dev: u16,
    /// The component of the same device it is part of, or the device itself.
    pub parent: Option<Id>,
    /// What it is for.
    pub role: ComponentRole,
    /// Which of several in its role, from one.
    pub index: Option<u16>,
}

/// A scalar signal, as a driver declares it.
#[derive(Debug, Clone, Copy, PartialEq, Eq, Structural)]
pub struct SiteSignal {
    /// Its id.
    pub sig: Id,
    /// The device it is on.
    pub dev: u16,
    /// The component it is at, or the device as a whole.
    pub comp: Option<Id>,
    /// What it measures.
    pub kind: MetricKind,
    /// What its value is.
    pub vtype: Vtype,
    /// Whether it is now, yesterday's, or a limit.
    pub domain: SignalDomain,
    /// Where it measures.
    pub point: Option<MeasurementPoint>,
    /// Which way counts as positive.
    pub dir: Option<Direction>,
    /// The space it draws on, required exactly for an enumeration or flags.
    pub esp: Option<EnumSpace>,
    /// How long its reading stays current in the store; not on the wire.
    pub limits: Limits,
}

/// One row of a batch.
#[derive(Debug, Clone, Copy, PartialEq, Eq)]
pub enum Descriptor {
    /// A bus.
    Bus(SiteBus),
    /// A device on a bus.
    Device(SiteDevice),
    /// A component of a device.
    Component(SiteComponent),
    /// A signal on a device.
    Signal(SiteSignal),
}

/// Why the revision moved.
#[derive(Debug, Clone, Copy, PartialEq, Eq, Structural)]
pub enum TopologyChangeReason {
    /// A boot.
    Boot,
    /// A configuration write.
    ConfigWrite,
    /// A sub-device was adopted.
    SubDeviceAdopted,
    /// A sub-device was removed.
    SubDeviceRemoved,
    /// A device was replaced.
    DeviceReplaced,
}

impl TopologyChangeReason {
    /// The number the wire spells it as.
    pub open spec fn spec_number(self) -> u8 {
        match self {
            TopologyChangeReason::Boot => 1,
            TopologyChangeReason::ConfigWrite => 2,
            TopologyChangeReason::SubDeviceAdopted => 3,
            TopologyChangeReason::SubDeviceRemoved => 4,
            TopologyChangeReason::DeviceReplaced => 5,
        }
    }
}

/// What a move of the revision owes: where it moved to, why, and how many rows.
#[derive(Debug, Clone, Copy, PartialEq, Eq, Structural)]
pub struct TopologyChanged {
    /// The revision it moved to.
    pub rev: u32,
    /// Why.
    pub reason: TopologyChangeReason,
    /// Rows added, of every kind; what the tables hold, at a boot.
    pub added: u16,
    /// Rows removed.
    pub removed: u16,
}

/// A request for a page of rows.
#[derive(Debug, Clone, Copy, PartialEq, Eq, Structural)]
pub struct ReadInventory {
    /// The revision the client holds, zero for none.
    pub rev: u32,
    /// The kind, by number.
    pub what: u8,
    /// The id to resume at, zero from the beginning.
    pub from: u16,
    /// The device whose parameters, for that kind alone.
    pub dev: Option<u16>,
}

/// How a request for rows was answered.
#[derive(Debug, Clone, Copy, PartialEq, Eq, Structural)]
pub enum InventoryOutcome {
    /// With rows.
    Answered,
    /// The revision named is neither zero nor current.
    Superseded,
    /// No table of that number.
    UnknownKind,
    /// The cursor is past the last row.
    OutOfRange,
}

impl InventoryOutcome {
    /// The number the wire spells it as.
    pub open spec fn spec_number(self) -> u8 {
        match self {
            InventoryOutcome::Answered => 1,
            InventoryOutcome::Superseded => 2,
            InventoryOutcome::UnknownKind => 3,
            InventoryOutcome::OutOfRange => 4,
        }
    }
}

/// Something a request for readings selects by.
#[derive(Debug, Clone, Copy, PartialEq, Eq, Structural)]
pub enum Sel {
    /// A device, and every device below it.
    Dev(Id),
    /// A component, and every component below it.
    Comp(Id),
    /// One signal.
    Sig(Id),
}

/// The most selectors one request for readings carries.
pub const MAX_SEL: usize = 12;

/// A request for readings: which signals, and where to resume.
#[derive(Debug, Clone, PartialEq, Eq)]
pub struct ReadSignals {
    /// The revision the client holds, zero for none.
    pub rev: u32,
    /// The signal to resume at, zero from the beginning.
    pub from: u16,
    /// What is asked for; nothing means every signal.
    pub sel: Vec<Sel>,
}

impl ReadSignals {
    /// Every signal, from `from` on.
    pub fn everything(rev: u32, from: u16) -> (r: Self)
        ensures
            r.rev == rev,
            r.from == from,
            r.sel@ == Seq::<Sel>::empty(),
    {
        ReadSignals { rev, from, sel: Vec::new() }
    }

    /// Narrow the request; `false` past the cap, with nothing dropped.
    pub fn select(&mut self, sel: Sel) -> (r: bool)
        ensures
            r == (old(self).sel@.len() < MAX_SEL),
            final(self).rev == old(self).rev,
            final(self).from == old(self).from,
            final(self).sel@ == (if r {
                old(self).sel@.push(sel)
            } else {
                old(self).sel@
            }),
    {
        if self.sel.len() >= MAX_SEL {
            return false;
        }
        self.sel.push(sel);
        true
    }
}

/// How a request for readings was answered.
#[derive(Debug, Clone, Copy, PartialEq, Eq, Structural)]
pub enum ReadingsOutcome {
    /// With samples.
    Answered,
    /// The revision named is neither zero nor current.
    Superseded,
    /// A selector names nothing.
    UnknownSelector,
    /// The cursor is past the last signal selected.
    OutOfRange,
}

impl ReadingsOutcome {
    /// The number the wire spells it as.
    pub open spec fn spec_number(self) -> u8 {
        match self {
            ReadingsOutcome::Answered => 1,
            ReadingsOutcome::Superseded => 2,
            ReadingsOutcome::UnknownSelector => 3,
            ReadingsOutcome::OutOfRange => 4,
        }
    }
}

/// Whether a device answers.
#[derive(Debug, Clone, Copy, PartialEq, Eq, Structural)]
pub enum Presence {
    /// It does.
    Online,
    /// It does, sometimes.
    Degraded,
    /// It does not.
    Offline,
    /// It never has.
    NeverSeen,
}

impl Presence {
    /// The number the wire spells it as.
    pub open spec fn spec_number(self) -> u8 {
        match self {
            Presence::Online => 1,
            Presence::Degraded => 2,
            Presence::Offline => 3,
            Presence::NeverSeen => 4,
        }
    }
}

/// What kind of event a record is.
#[derive(Debug, Clone, Copy, PartialEq, Eq, Structural)]
pub struct EventKind(pub u16);

/// A signal's validity changed.
pub const SIGNAL_VALIDITY_CHANGED: u16 = 0x0102;

/// A concern was raised.
pub const CONCERN_RAISED: u16 = 0x0501;

/// A concern changed.
pub const CONCERN_CHANGED: u16 = 0x0502;

/// The topology changed.
pub const TOPOLOGY_CHANGED: u16 = 0x0901;

/// A device's presence changed.
pub const DEVICE_PRESENCE_CHANGED: u16 = 0x0902;

} // verus!
