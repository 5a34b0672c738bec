//! What a reading is: a signal's id, the quality beside its value, and the
//! sample the two make.

use vstd::prelude::*;

verus! {

/// An id a table hands out, never zero: zero is where paging ends.
#[derive(Debug, Clone, Copy, PartialEq, Eq, PartialOrd, Ord, Hash, Structural)]
pub struct Id(u16);

/// Zero handed to a space that reserves it.
#[derive(Debug, Clone, Copy, PartialEq, Eq, Structural)]
pub struct ZeroId;

impl View for Id {
    type V = u16;

    closed spec fn view(&self) -> u16 {
        self.0
    }
}

impl Id {
    #[verifier::type_invariant]
    spec fn never_zero(self) -> bool {
        self.0 != 0
    }

    /// Two ids are the same when their numbers are.
    pub broadcast proof fn same_number_same_id(a: Self, b: Self)
        ensures
            #[trigger] a@ == #[trigger] b@ ==> a == b,
    {
    }

    /// The id `value`, refused for zero.
    pub fn new(value: u16) -> (r: Result<Self, ZeroId>)
        ensures
            r is Err <==> value == 0,
            r matches Ok(id) ==> id@ == value,
    {
        if value == 0 {
            Err(ZeroId)
        } else {
            Ok(Self(value))
        }
    }

    /// The number, never zero.
    pub fn get(self) -> (r: u16)
        ensures
            r == self@,
            r != 0,
    {
        proof {
            use_type_invariant(&self);
        }
        self.0
    }
}

/// Whether a reading holds, and why it does not.
#[derive(Debug, Clone, Copy, PartialEq, Eq, Structural)]
pub enum Validity {
    /// Current.
    Current,
    /// Old.
    Stale,
    /// The source is up and has not produced a first reading.
    Initialising,
    /// The source cannot read it.
    Unsupported,
    /// The sensor failed.
    SensorFault,
    /// The reading is outside what the sensor can mean.
    OutOfRange,
    /// Nothing is there.
    Absent,
    /// The source said something no name is allocated for.
    UnnamedState,
}

impl Validity {
    /// Whether a reading of this validity carries a number.
    pub open spec fn spec_has_value(self) -> bool {
        self is Current || self is Stale
    }

    /// Whether a reading of this validity carries a number.
    pub fn has_value(self) -> (r: bool)
        ensures
            r == self.spec_has_value(),
    {
        match self {
            Validity::Current => true,
            Validity::Stale => true,
            _ => false,
        }
    }

    /// The number the wire spells it as.
    pub open spec fn spec_number(self) -> u8 {
        match self {
            Validity::Current => 1,
            Validity::Stale => 2,
            Validity::Initialising => 3,
            Validity::Unsupported => 4,
            Validity::SensorFault => 5,
            Validity::OutOfRange => 6,
            Validity::Absent => 7,
            Validity::UnnamedState => 8,
        }
    }

    /// The validity a number spells.
    pub open spec fn spec_from(number: u8) -> Option<Validity> {
        if number == 1 {
            Some(Validity::Current)
        } else if number == 2 {
            Some(Validity::Stale)
        } else if number == 3 {
            Some(Validity::Initialising)
        } else if number == 4 {
            Some(Validity::Unsupported)
        } else if number == 5 {
            Some(Validity::SensorFault)
        } else if number == 6 {
            Some(Validity::OutOfRange)
        } else if number == 7 {
            Some(Validity::Absent)
        } else if number == 8 {
            Some(Validity::UnnamedState)
        } else {
            None
        }
    }

    /// The validity a number spells.
    pub fn from_number(number: u8) -> (r: Option<Self>)
        ensures
            r == Validity::spec_from(number),
    {
        match number {
            1 => Some(Validity::Current),
            2 => Some(Validity::Stale),
            3 => Some(Validity::Initialising),
            4 => Some(Validity::Unsupported),
            5 => Some(Validity::SensorFault),
            6 => Some(Validity::OutOfRange),
            7 => Some(Validity::Absent),
            8 => Some(Validity::UnnamedState),
            _ => None,
        }
    }

    /// The number the wire spells it as.
    pub fn number(self) -> (r: u8)
        ensures
            r == self.spec_number(),
    {
        match self {
            Validity::Current => 1,
            Validity::Stale => 2,
            Validity::Initialising => 3,
            Validity::Unsupported => 4,
            Validity::SensorFault => 5,
            Validity::OutOfRange => 6,
            Validity::Absent => 7,
            Validity::UnnamedState => 8,
        }
    }
}

/// Where a number came from.
#[derive(Debug, Clone, Copy, PartialEq, Eq, Structural)]
pub enum Provenance {
    /// There is no number.
    Nowhere,
    /// Read off an instrument.
    Measured,
    /// Counted up.
    Counted,
    /// Worked out from other readings.
    Derived,
    /// Inferred.
    Estimated,
    /// Stated by the device about itself.
    Reported,
    /// What it was told to be.
    Commanded,
}

impl Provenance {
    /// The number the wire spells it as.
    pub open spec fn spec_number(self) -> u8 {
        match self {
            Provenance::Nowhere => 0,
            Provenance::Measured => 1,
            Provenance::Counted => 2,
            Provenance::Derived => 3,
            Provenance::Estimated => 4,
            Provenance::Reported => 5,
            Provenance::Commanded => 6,
        }
    }

    /// The provenance a number spells.
    pub open spec fn spec_from(number: u8) -> Option<Provenance> {
        if number == 0 {
            Some(Provenance::Nowhere)
        } else if number == 1 {
            Some(Provenance::Measured)
        } else if number == 2 {
            Some(Provenance::Counted)
        } else if number == 3 {
            Some(Provenance::Derived)
        } else if number == 4 {
            Some(Provenance::Estimated)
        } else if number == 5 {
            Some(Provenance::Reported)
        } else if number == 6 {
            Some(Provenance::Commanded)
        } else {
            None
        }
    }

    /// The provenance a number spells.
    pub fn from_number(number: u8) -> (r: Option<Self>)
        ensures
            r == Provenance::spec_from(number),
    {
        match number {
            0 => Some(Provenance::Nowhere),
            1 => Some(Provenance::Measured),
            2 => Some(Provenance::Counted),
            3 => Some(Provenance::Derived),
            4 => Some(Provenance::Estimated),
            5 => Some(Provenance::Reported),
            6 => Some(Provenance::Commanded),
            _ => None,
        }
    }

    /// The number the wire spells it as.
    pub fn number(self) -> (r: u8)
        ensures
            r == self.spec_number(),
    {
        match self {
            Provenance::Nowhere => 0,
            Provenance::Measured => 1,
            Provenance::Counted => 2,
            Provenance::Derived => 3,
            Provenance::Estimated => 4,
            Provenance::Reported => 5,
            Provenance::Commanded => 6,
        }
    }
}

/// Why a quality or a sample was refused.
#[derive(Debug, Clone, Copy, PartialEq, Eq, Structural)]
pub enum QualityError {
    /// A validity that carries no number, handed one.
    NoValueToCarry(Validity),
    /// A validity that carries a number, handed none.
    ValueOmitted(Validity),
    /// A number with no source named.
    CarryingWithoutProvenance,
    /// Stale, with no age.
    StaleWithoutAge,
    /// An age on a reading that is not stale.
    AgeWithoutStaleness(Validity),
}

/// A validity and a provenance that agree: a provenance is named exactly when
/// the validity carries a number.
#[derive(Debug, Clone, Copy, PartialEq, Eq, Structural)]
pub struct SignalQuality {
    validity: Validity,
    provenance: Provenance,
}

impl SignalQuality {
    /// A provenance is named exactly when the validity carries a number.
    #[verifier::type_invariant]
    pub closed spec fn agrees(self) -> bool {
        self.validity.spec_has_value() <==> !(self.provenance is Nowhere)
    }

    /// What [`agrees`](Self::agrees) says, over the halves.
    pub broadcast proof fn agreeing(q: Self)
        ensures
            #[trigger] q.agrees() <==> (q.validity().spec_has_value() <==> !(q.provenance()
                is Nowhere)),
    {
    }

    /// The validity half.
    pub closed spec fn validity(self) -> Validity {
        self.validity
    }

    /// The provenance half.
    pub closed spec fn provenance(self) -> Provenance {
        self.provenance
    }

    /// The quality with these two halves.
    pub closed spec fn spec_of(validity: Validity, provenance: Provenance) -> Self {
        SignalQuality { validity, provenance }
    }

    /// A quality is its two halves.
    pub broadcast proof fn is_its_halves(q: Self)
        ensures
            #[trigger] SignalQuality::spec_of(q.validity(), q.provenance()) == q,
    {
    }

    /// The halves a quality was made of.
    pub broadcast proof fn halves(validity: Validity, provenance: Provenance)
        ensures
            (#[trigger] SignalQuality::spec_of(validity, provenance)).validity() == validity,
            SignalQuality::spec_of(validity, provenance).provenance() == provenance,
    {
    }

    /// A reading that carries a number: refused for a validity that has none
    /// to carry and for no provenance.
    pub fn carrying(validity: Validity, provenance: Provenance) -> (r: Result<Self, QualityError>)
        ensures
            r == (if !validity.spec_has_value() {
                Err::<Self, QualityError>(QualityError::NoValueToCarry(validity))
            } else if provenance is Nowhere {
                Err(QualityError::CarryingWithoutProvenance)
            } else {
                Ok(SignalQuality::spec_of(validity, provenance))
            }),
    {
        if !validity.has_value() {
            return Err(QualityError::NoValueToCarry(validity));
        }
        if let Provenance::Nowhere = provenance {
            return Err(QualityError::CarryingWithoutProvenance);
        }
        Ok(SignalQuality { validity, provenance })
    }

    /// A reading that carries nothing, because there is nothing to carry.
    pub fn absent(validity: Validity) -> (r: Result<Self, QualityError>)
        ensures
            r == (if validity.spec_has_value() {
                Err::<Self, QualityError>(QualityError::ValueOmitted(validity))
            } else {
                Ok(SignalQuality::spec_of(validity, Provenance::Nowhere))
            }),
    {
        if validity.has_value() {
            return Err(QualityError::ValueOmitted(validity));
        }
        Ok(SignalQuality { validity, provenance: Provenance::Nowhere })
    }

    /// Whether this quality says a value is present.
    pub fn carries_value(self) -> (r: bool)
        ensures
            r == self.validity().spec_has_value(),
            r == !(self.provenance() is Nowhere),
    {
        proof {
            use_type_invariant(&self);
        }
        self.validity.has_value()
    }

    /// The validity half.
    pub fn validity_of(self) -> (r: Validity)
        ensures
            r == self.validity(),
    {
        self.validity
    }

    /// The provenance half.
    pub fn provenance_of(self) -> (r: Provenance)
        ensures
            r == self.provenance(),
            self.validity().spec_has_value() <==> !(r is Nowhere),
    {
        proof {
            use_type_invariant(&self);
        }
        self.provenance
    }

    /// The wire byte, in the mathematical sense: validity in the high half,
    /// provenance in the low.
    pub open spec fn spec_byte(self) -> u8 {
        (16 * self.validity().spec_number() + self.provenance().spec_number()) as u8
    }

    /// The quality a wire byte spells, in the mathematical sense: both halves
    /// allocated, and a provenance named exactly when the validity carries a
    /// number.
    pub open spec fn spec_from_byte(raw: u8) -> Option<Self> {
        match (Validity::spec_from(raw / 16), Provenance::spec_from(raw % 16)) {
            (Some(validity), Some(provenance)) => if validity.spec_has_value()
                != (provenance is Nowhere) {
                Some(SignalQuality::spec_of(validity, provenance))
            } else {
                None
            },
            _ => None,
        }
    }

    /// Read one off its wire byte, or nothing where a half is not allocated
    /// or the two contradict each other.
    pub fn from_byte(raw: u8) -> (r: Option<Self>)
        ensures
            r == SignalQuality::spec_from_byte(raw),
    {
        let validity = match Validity::from_number(raw / 16) {
            Some(validity) => validity,
            None => return None,
        };
        let provenance = match Provenance::from_number(raw % 16) {
            Some(provenance) => provenance,
            None => return None,
        };
        let nowhere = match provenance {
            Provenance::Nowhere => true,
            _ => false,
        };
        if validity.has_value() == nowhere {
            return None;
        }
        Some(SignalQuality { validity, provenance })
    }

    /// Two qualities that differ have bytes that differ.
    pub proof fn law_bytes_tell_qualities_apart(a: Self, b: Self)
        requires
            a != b,
        ensures
            a.spec_byte() != b.spec_byte(),
    {
    }

    /// A quality read off its own byte is that quality.
    pub proof fn law_a_byte_reads_back(q: Self)
        requires
            q.validity().spec_has_value() <==> !(q.provenance() is Nowhere),
        ensures
            SignalQuality::spec_from_byte(q.spec_byte()) == Some(q),
    {
    }

    /// The wire byte: validity in the high half, provenance in the low.
    pub fn byte(self) -> (r: u8)
        ensures
            r == self.spec_byte(),
    {
        16 * self.validity.number() + self.provenance.number()
    }
}

/// A scalar reading: one signal, and a value only if there is one.
#[derive(Debug, Clone, Copy, PartialEq, Eq, Structural)]
pub struct Sample {
    /// The signal.
    pub sig: Id,
    /// The value, present exactly when the quality carries one.
    pub value: Option<i32>,
    /// The quality.
    pub q: SignalQuality,
    /// Its age in seconds, present exactly when it is stale.
    pub age: Option<u32>,
}

impl Sample {
    /// Why a sample is refused, if it is: a value where there is none, none
    /// where there is one, stale with no age, or an age on a current reading.
    pub open spec fn spec_refused(
        q: SignalQuality,
        value: Option<i32>,
        age: Option<u32>,
    ) -> Option<QualityError> {
        if q.validity().spec_has_value() && value is None {
            Some(QualityError::ValueOmitted(q.validity()))
        } else if !q.validity().spec_has_value() && value is Some {
            Some(QualityError::NoValueToCarry(q.validity()))
        } else if q.validity() is Stale && age is None {
            Some(QualityError::StaleWithoutAge)
        } else if !(q.validity() is Stale) && age is Some {
            Some(QualityError::AgeWithoutStaleness(q.validity()))
        } else {
            None
        }
    }

    /// Build one, refusing a value, an age or the lack of either that the
    /// quality contradicts.
    pub fn new(sig: Id, q: SignalQuality, value: Option<i32>, age: Option<u32>) -> (r: Result<
        Self,
        QualityError,
    >)
        ensures
            match Sample::spec_refused(q, value, age) {
                Some(why) => r == Err::<Self, QualityError>(why),
                None => r == Ok::<Self, QualityError>(Sample { sig, value, q, age }),
            },
    {
        let carries = q.carries_value();
        if carries && value.is_none() {
            return Err(QualityError::ValueOmitted(q.validity_of()));
        }
        if !carries && value.is_some() {
            return Err(QualityError::NoValueToCarry(q.validity_of()));
        }
        let stale = match q.validity_of() {
            Validity::Stale => true,
            _ => false,
        };
        if stale && age.is_none() {
            return Err(QualityError::StaleWithoutAge);
        }
        if !stale && age.is_some() {
            return Err(QualityError::AgeWithoutStaleness(q.validity_of()));
        }
        Ok(Sample { sig, value, q, age })
    }

    /// The value, present exactly when the quality carries one.
    pub fn value(&self) -> (r: Option<i32>)
        ensures
            r == self.value,
    {
        self.value
    }

    /// The age, present exactly when the reading is stale.
    pub fn age(&self) -> (r: Option<u32>)
        ensures
            r == self.age,
    {
        self.age
    }
}

} // verus!
