//! Concern records as the log carries them: what one is about, and how it goes
//! out.

use crate::bytes::spliced;
use crate::reading::Id;
use km43::VendorNamespace;
use vstd::prelude::*;

verus! {

/// The longest a series is.
pub const SERIES_ELEMENTS: u8 = 16;

/// An element of a series, by its position from one.
#[derive(Debug, Clone, Copy, PartialEq, Eq, Structural)]
pub struct ElementAt(u8);

impl View for ElementAt {
    type V = u8;

    closed spec fn view(&self) -> u8 {
        self.0
    }
}

impl ElementAt {
    #[verifier::type_invariant]
    spec fn in_a_series(self) -> bool {
        1 <= self.0 <= SERIES_ELEMENTS
    }

    /// The element at `position`, refused for zero and past the longest series.
    pub fn new(position: u8) -> (r: Option<Self>)
        ensures
            r is Some <==> 1 <= position <= SERIES_ELEMENTS,
            r matches Some(at) ==> at@ == position,
    {
        if position == 0 || position > SERIES_ELEMENTS {
            None
        } else {
            Some(ElementAt(position))
        }
    }

    /// The position.
    pub fn get(self) -> (r: u8)
        ensures
            r == self@,
            1 <= r <= SERIES_ELEMENTS,
    {
        proof {
            use_type_invariant(&self);
        }
        self.0
    }
}

/// How far down a concern reaches.
#[derive(Debug, Clone, Copy, PartialEq, Eq, Structural)]
pub enum Reach {
    /// The part as a whole.
    Whole,
    /// One signal on it.
    Signal(Id),
    /// One element of a series signal.
    Element(Id, ElementAt),
}

/// What a concern is about.
#[derive(Debug, Clone, Copy, PartialEq, Eq, Structural)]
pub struct About {
    /// The device.
    pub dev: Id,
    /// The component, or the device as a whole.
    pub comp: Option<Id>,
    /// How far down.
    pub reach: Reach,
}

/// What is wrong.
#[derive(Debug, Clone, Copy, PartialEq, Eq, Structural)]
pub struct Condition(pub u16);

/// How bad it is.
#[derive(Debug, Clone, Copy, PartialEq, Eq, Structural)]
pub enum Severity {
    /// Worth knowing.
    Info,
    /// Worth looking at.
    Warning,
    /// Broken.
    Fault,
    /// Stopped to protect itself.
    Protection,
}

impl Severity {
    /// The number the wire spells it as.
    pub open spec fn spec_number(self) -> u8 {
        match self {
            Severity::Info => 1,
            Severity::Warning => 2,
            Severity::Fault => 3,
            Severity::Protection => 4,
        }
    }

    /// The number the wire spells it as.
    pub fn number(self) -> (r: u8)
        ensures
            r == self.spec_number(),
    {
        match self {
            Severity::Info => 1,
            Severity::Warning => 2,
            Severity::Fault => 3,
            Severity::Protection => 4,
        }
    }
}

/// Where a concern is in its life.
#[derive(Debug, Clone, Copy, PartialEq, Eq, Structural)]
pub enum ConcernState {
    /// It holds.
    Active,
    /// It holds, and somebody knows.
    ActiveAcked,
    /// It is gone, and latched.
    LatchedCleared,
    /// It is gone, and may not clear yet.
    ClearingBlocked,
    /// It is over.
    Cleared,
}

impl ConcernState {
    /// The number the wire spells it as.
    pub open spec fn spec_number(self) -> u8 {
        match self {
            ConcernState::Active => 1,
            ConcernState::ActiveAcked => 2,
            ConcernState::LatchedCleared => 3,
            ConcernState::ClearingBlocked => 4,
            ConcernState::Cleared => 5,
        }
    }

    /// The number the wire spells it as.
    pub fn number(self) -> (r: u8)
        ensures
            r == self.spec_number(),
    {
        match self {
            ConcernState::Active => 1,
            ConcernState::ActiveAcked => 2,
            ConcernState::LatchedCleared => 3,
            ConcernState::ClearingBlocked => 4,
            ConcernState::Cleared => 5,
        }
    }
}

/// The source's own code for a condition, and whose code it is.
#[derive(Debug, Clone, Copy, PartialEq, Eq, Structural)]
pub struct VendorCode {
    /// The code, verbatim.
    pub raw: u32,
    /// The namespace that reads it.
    pub vns: u16,
}

/// One row of the concern table.
#[derive(Debug, Clone, Copy, PartialEq, Eq, Structural)]
pub struct Concern {
    /// Its id.
    pub cid: Id,
    /// What it is about.
    pub subject: About,
    /// What is wrong.
    pub cond: Condition,
    /// How bad.
    pub sev: Severity,
    /// Where it is in its life.
    pub state: ConcernState,
    /// Seconds since it was first observed.
    pub age: u32,
    /// When, if the clock was set.
    pub since: Option<u64>,
    /// The source's own code, if it has one.
    pub code: Option<VendorCode>,
    /// The log position of the record that opened the row.
    pub seq: u64,
}

/// A row entering the table.
#[derive(Debug, Clone, Copy, PartialEq, Eq, Structural)]
pub struct ConcernRaised {
    /// The topology revision it was raised under.
    pub rev: u32,
    /// The row.
    pub concern: Concern,
}

/// A row moving.
#[derive(Debug, Clone, Copy, PartialEq, Eq, Structural)]
pub struct ConcernChanged {
    /// The topology revision at the change.
    pub rev: u32,
    /// The row.
    pub cid: Id,
    /// Its device.
    pub dev: Id,
    /// What is wrong.
    pub cond: Condition,
    /// What it moved to.
    pub state: ConcernState,
    /// What it moved from.
    pub prev: ConcernState,
}

/// A record of the concern table.
#[derive(Debug, Clone, Copy, PartialEq, Eq, Structural)]
pub enum ConcernRecord {
    /// A row entered.
    Raised(ConcernRaised),
    /// A row moved.
    Changed(ConcernChanged),
}

impl ConcernRecord {
    /// The record as it goes into the log at `seq`, in the mathematical sense: a
    /// raise carries, in its row, the position of the record that opens it.
    pub open spec fn spec_at(self, seq: u64) -> Self {
        match self {
            ConcernRecord::Raised(raised) => ConcernRecord::Raised(
                ConcernRaised { concern: Concern { seq, ..raised.concern }, ..raised },
            ),
            changed => changed,
        }
    }

    /// The record as it goes into the log at `seq`.
    pub fn at(self, seq: u64) -> (r: Self)
        ensures
            r == self.spec_at(seq),
    {
        match self {
            ConcernRecord::Raised(raised) => {
                let mut raised = raised;
                raised.concern.seq = seq;
                ConcernRecord::Raised(raised)
            },
            changed => changed,
        }
    }

    /// The body it goes out as.
    pub open spec fn image(self) -> Seq<u8> {
        match self {
            ConcernRecord::Raised(raised) => raised_image(raised),
            ConcernRecord::Changed(changed) => changed_image(changed),
        }
    }
}

/// `km43::Subject`, what a concern is about.
#[verifier::external_type_specification]
#[verifier::external_body]
pub struct ExSubject(km43::Subject);

/// `km43::ConcernsError`, why a concern body was refused.
#[verifier::external_type_specification]
#[verifier::external_body]
pub struct ExConcernsError(km43::ConcernsError);

/// What a subject is about.
pub uninterp spec fn subject_words(subject: km43::Subject) -> About;

/// The body of a row entering the table.
pub uninterp spec fn raised_image(raised: ConcernRaised) -> Seq<u8>;

/// The body of a row moving.
pub uninterp spec fn changed_image(changed: ConcernChanged) -> Seq<u8>;

/// What a concern is about: `km43::Subject`, on a `km43::Part`.
///
/// Trusted: it is about the device, the component, the signal and the element
/// it was made of, as [`subject_words`] names them. There is one for every
/// subject.
#[verifier::external_body]
fn subject_of(of: &About) -> (r: Result<km43::Subject, km43::ConcernsError>)
    ensures
        r is Ok,
        subject_words(r->Ok_0) == *of,
{
    let dev = km43::Id::new(of.dev.get())?;
    let part = match of.comp {
        Some(comp) => km43::Part::component(dev, km43::Id::new(comp.get())?),
        None => km43::Part::device(dev),
    };
    let element = |at: ElementAt| km43::ElementAt::new(at.get());
    Ok(match of.reach {
        Reach::Whole => km43::Subject::Part(part),
        Reach::Signal(sig) => km43::Subject::Signal(part, km43::Id::new(sig.get())?),
        Reach::Element(sig, at) => {
            km43::Subject::Element(part, km43::Id::new(sig.get())?, element(at)?)
        },
    })
}

/// Write a row entering the table: `km43::ConcernRaised::encode`.
///
/// Trusted: the bytes are a function of the revision, the row and its subject,
/// named [`raised_image`]; they take at most seventy-one bytes and are written
/// at the front of `dst` when they fit it.
#[verifier::external_body]
fn encode_raised(raised: &ConcernRaised, subject: km43::Subject, dst: &mut [u8]) -> (r: Result<
    usize,
    km43::ConcernsError,
>)
    requires
        subject_words(subject) == raised.concern.subject,
    ensures
        final(dst)@.len() == old(dst)@.len(),
        ({
            let bytes = raised_image(*raised);
            if bytes.len() <= old(dst)@.len() {
                &&& r matches Ok(len) && len == bytes.len()
                &&& final(dst)@ == spliced(old(dst)@, 0, bytes)
            } else {
                r is Err && bytes.len() <= 71
            }
        }),
{
    let row = &raised.concern;
    let sev = km43::Severity::try_from(row.sev.number());
    let state = km43::ConcernState::try_from(row.state.number());
    let concern = km43::Concern {
        cid: km43::Id::new(row.cid.get())?,
        subject,
        cond: km43::Condition(row.cond.0),
        sev: sev.map_err(|()| km43::ConcernsError::UnknownSeverity(0))?,
        state: state.map_err(|()| km43::ConcernsError::UnknownState(0))?,
        age: row.age, since: row.since, seq: row.seq,
        code: row.code.map(|c| km43::VendorCode { raw: c.raw, vns: VendorNamespace(c.vns) }),
    };
    km43::ConcernRaised { rev: raised.rev, concern }.encode(dst)
}

/// Write a row moving: `km43::ConcernChanged::encode`.
///
/// Trusted: the bytes are a function of the values alone, named
/// [`changed_image`]; they take at most twenty-three bytes and are written at
/// the front of `dst` when they fit it.
#[verifier::external_body]
fn encode_changed(changed: &ConcernChanged, dst: &mut [u8]) -> (r: Result<
    usize,
    km43::ConcernsError,
>)
    ensures
        final(dst)@.len() == old(dst)@.len(),
        ({
            let bytes = changed_image(*changed);
            if bytes.len() <= old(dst)@.len() {
                &&& r matches Ok(len) && len == bytes.len()
                &&& final(dst)@ == spliced(old(dst)@, 0, bytes)
            } else {
                r is Err && bytes.len() <= 23
            }
        }),
{
    let ConcernChanged { rev, cid, dev, cond, state, prev } = *changed;
    let named = |state: ConcernState| {
        km43::ConcernState::try_from(state.number())
            .map_err(|()| km43::ConcernsError::UnknownState(state.number()))
    };
    let (cid, dev) = (km43::Id::new(cid.get())?, km43::Id::new(dev.get())?);
    let (state, prev) = (named(state)?, named(prev)?);
    km43::ConcernChanged { rev, cid, dev, cond: km43::Condition(cond.0), state, prev }.encode(dst)
}

/// Write a record's body.
pub fn write_record(record: &ConcernRecord, dst: &mut [u8]) -> (r: Result<
    usize,
    km43::ConcernsError,
>)
    ensures
        final(dst)@.len() == old(dst)@.len(),
        if record.image().len() <= old(dst)@.len() {
            &&& r == Ok::<usize, km43::ConcernsError>(record.image().len() as usize)
            &&& final(dst)@ == spliced(old(dst)@, 0, record.image())
        } else {
            r is Err && record.image().len() <= 71
        },
{
    match record {
        ConcernRecord::Raised(raised) => {
            let subject = subject_of(&raised.concern.subject)?;
            encode_raised(raised, subject, dst)
        },
        ConcernRecord::Changed(changed) => encode_changed(changed, dst),
    }
}

} // verus!
