//! Wall-clock admission; every duration remains on the monotonic tick.
//!
//! The floor an offer is checked against is the newest timestamp the log
//! holds. A failed scan is not an empty log and never becomes the build-time
//! fallback.

use vstd::prelude::*;

use crate::idents::ReqId;
use crate::req_window::MAX_INFLIGHT;
use crate::tick::{Millis, Tick, UnixMillis};

verus! {

/// Ten Julian years, in milliseconds.
pub const PLAUSIBILITY_SPAN: u64 = 315_576_000_000;

/// One accepted offer per fifteen minutes, in milliseconds, independent of
/// wall-clock changes.
pub const OFFER_INTERVAL: u64 = 900_000;

/// Largest correction an unauthenticated offer may make to a known clock, in
/// milliseconds.
pub const OFFER_STEP: u64 = 5_000;

/// How long a completed acceptance stays replayable, in milliseconds: for all
/// three attempts of a requester. Expiry permits a request number's reuse.
pub const OFFER_REPLAY: u64 = 1_500;

/// A failed audit append is retried at most this often, in milliseconds.
pub const AUDIT_RETRY: u64 = 1_000;

/// Which message moved the clock.
#[derive(Debug, Clone, Copy, PartialEq, Eq, Structural)]
pub enum TimeSource {
    /// A signed client write.
    Client,
    /// An accepted offer of the comms processor's.
    NtpViaComms,
}

/// What an offer is answered.
#[derive(Debug, Clone, Copy, PartialEq, Eq, Structural)]
pub enum TimeOffer {
    /// The clock was set.
    Accepted,
    /// Before the floor, or further past it than is plausible.
    RefusedImplausible,
    /// Too far from a known clock.
    RefusedStepTooLarge,
    /// Too soon after the last one accepted.
    RefusedRateLimited,
}

/// The body of the record a clock change is written down as.
#[derive(Debug, Clone, Copy, PartialEq, Eq, Structural)]
pub struct TimeSet {
    /// The previous reading, absent when the clock was unknown.
    pub old: Option<u64>,
    /// The accepted reading.
    pub new: u64,
    /// Which message moved the clock.
    pub source: TimeSource,
}

/// A received time value anchored to the controller's monotonic tick.
#[derive(Debug, Clone, Copy, PartialEq, Eq, Structural)]
pub struct OfferedTime {
    at: u64,
    received: Tick,
}

impl View for OfferedTime {
    type V = (u64, Tick);

    closed spec fn view(&self) -> (u64, Tick) {
        (self.at, self.received)
    }
}

impl OfferedTime {
    /// Anchor the value when the complete offer arrives, before any queue
    /// wait.
    pub fn new(at: u64, received: Tick) -> (r: Self)
        ensures
            r@ == (at, received),
    {
        OfferedTime { at, received }
    }

    /// Advance by queue and scan time. Refuse a backwards tick or integer
    /// overflow.
    pub fn at(self, now: Tick) -> (r: Option<u64>)
        ensures
            r is Some <==> now.0 >= self@.1.0 && self@.0 + (now.0 - self@.1.0) <= u64::MAX,
            r matches Some(at) ==> at == self@.0 + (now.0 - self@.1.0),
    {
        match now.since(self.received) {
            Some(waited) => self.at.checked_add(waited.as_millis()),
            None => None,
        }
    }
}

/// A proposed change. Applying it and recording it belong to the caller.
///
/// It carries its source from the decision that made it to the record that
/// names it, because the source is fixed by which message moved the clock and
/// read from nowhere else.
#[derive(Debug, Clone, Copy, PartialEq, Eq, Structural)]
pub struct ClockChange {
    old: Option<UnixMillis>,
    new: UnixMillis,
    source: TimeSource,
}

impl View for ClockChange {
    type V = TimeSet;

    closed spec fn view(&self) -> TimeSet {
        TimeSet {
            old: match self.old {
                Some(at) => Some(at@),
                None => None,
            },
            new: self.new@,
            source: self.source,
        }
    }
}

impl ClockChange {
    /// Two changes that say the same are the same.
    pub proof fn same_words_same_change(a: Self, b: Self)
        requires
            a@ == b@,
        ensures
            a == b,
    {
        UnixMillis::same_count_same_moment(a.new, b.new);
        match (a.old, b.old) {
            (Some(x), Some(y)) => UnixMillis::same_count_same_moment(x, y),
            _ => {},
        }
    }

    /// A change read back from where it was retained across a reset.
    pub fn recovered(old: Option<UnixMillis>, new: UnixMillis, source: TimeSource) -> (r: Self)
        ensures
            r@.new == new@,
            r@.source == source,
            r@.old is Some <==> old is Some,
            old matches Some(at) ==> r@.old == Some(at@),
    {
        ClockChange { old, new, source }
    }

    /// The record's body: the comms processor's source for an accepted offer,
    /// never the number the link carried, and the client's for a signed write.
    pub fn record(self) -> (r: TimeSet)
        ensures
            r == self@,
    {
        TimeSet {
            old: match self.old {
                Some(at) => Some(at.as_millis()),
                None => None,
            },
            new: self.new.as_millis(),
            source: self.source,
        }
    }

    /// Which message moved the clock.
    pub fn source(self) -> (r: TimeSource)
        ensures
            r == self@.source,
    {
        self.source
    }

    /// The previous reading, absent when the clock was unknown.
    pub fn old_value(self) -> (r: Option<UnixMillis>)
        ensures
            r is Some <==> self@.old is Some,
            r matches Some(at) ==> self@.old == Some(at@),
    {
        self.old
    }

    /// The accepted reading.
    pub fn new_value(self) -> (r: UnixMillis)
        ensures
            r@ == self@.new,
    {
        self.new
    }
}

/// A change applied and owed to the log.
#[derive(Debug, Clone, Copy, PartialEq, Eq, Structural)]
pub struct Audit {
    /// The change.
    pub change: ClockChange,
    /// Whom to answer once it is written, and the value offered; nobody once
    /// the link that asked is gone.
    pub reply: Option<Answered>,
    /// When the next append may be tried.
    pub retry_at: Option<Tick>,
}

/// A request and the value it offered.
#[derive(Debug, Clone, Copy, PartialEq, Eq, Structural)]
pub struct Answered {
    /// The request.
    pub req_id: ReqId,
    /// The value offered.
    pub at: u64,
}

/// An acceptance that may still be replayed.
#[derive(Debug, Clone, Copy, PartialEq, Eq, Structural)]
pub struct Completed {
    /// The request and the value it offered.
    pub of: Answered,
    /// When it stops being replayable; never, at the end of the tick.
    pub expires: Option<Tick>,
}

/// Intake of a decoded offer before the log is touched.
#[derive(Debug, Clone, Copy, PartialEq, Eq, Structural)]
pub enum OfferIntake {
    /// A new request reserved one of the four pending slots.
    Queued,
    /// Replay the accepted result without applying or recording it again.
    Accepted,
    /// A retry of a request still being processed; do not execute it twice.
    Pending,
    /// Refused and counted on the monotonic acceptance limit.
    RateLimited,
    /// Four requests await answers; the fifth is refused, none is evicted.
    Full,
}

/// The admission state.
pub struct ClockModel {
    /// When the last offer was accepted.
    pub last_offer: Option<Tick>,
    /// Offers refused inside the limit.
    pub rate_refusals: u64,
    /// The requests awaiting answers, by slot.
    pub pending: Seq<Option<ReqId>>,
    /// The change owed to the log.
    pub audit: Option<Audit>,
    /// The acceptance that may still be replayed.
    pub completed: Option<Completed>,
}

/// The first place from `from` on that holds `what`, or the length.
pub open spec fn first_of(slots: Seq<Option<ReqId>>, what: Option<ReqId>, from: int) -> int
    decreases slots.len() - from,
{
    if from >= slots.len() {
        slots.len() as int
    } else if slots[from] == what {
        from
    } else {
        first_of(slots, what, from + 1)
    }
}

/// How far apart two counts are.
pub open spec fn apart(a: u64, b: u64) -> int {
    if a >= b {
        a - b
    } else {
        b - a
    }
}

impl ClockModel {
    /// Four slots.
    pub open spec fn sound(self) -> bool {
        self.pending.len() == MAX_INFLIGHT
    }

    /// No offer accepted during this boot.
    pub open spec fn fresh() -> Self {
        ClockModel {
            last_offer: None,
            rate_refusals: 0,
            pending: seq![None, None, None, None],
            audit: None,
            completed: None,
        }
    }

    /// Whether an offer at `now` is inside the acceptance limit.
    pub open spec fn limited(self, now: Tick) -> bool {
        self.last_offer matches Some(last) && (now.0 < last.0 || now.0 - last.0 < OFFER_INTERVAL)
    }

    /// The state once an offer at `now` was checked against the limit: one
    /// refused is counted.
    pub open spec fn counting(self, now: Tick) -> Self {
        if self.limited(now) && self.rate_refusals < u64::MAX {
            ClockModel { rate_refusals: (self.rate_refusals + 1) as u64, ..self }
        } else {
            self
        }
    }

    /// What an offer of `at` comes to, against a known clock or the floor.
    pub open spec fn judged(self, at: u64, current: Option<u64>, floor: u64, now: Tick) -> Result<
        TimeSet,
        TimeOffer,
    > {
        if self.limited(now) {
            Err(TimeOffer::RefusedRateLimited)
        } else if current matches Some(old) && apart(at, old) > OFFER_STEP {
            Err(TimeOffer::RefusedStepTooLarge)
        } else if current is None && (at < floor || at - floor > PLAUSIBILITY_SPAN) {
            Err(TimeOffer::RefusedImplausible)
        } else if at == 0 {
            Err(TimeOffer::RefusedImplausible)
        } else {
            Ok(TimeSet { old: current, new: at, source: TimeSource::NtpViaComms })
        }
    }

    /// The acceptance that is still replayable at `now`.
    pub open spec fn replayable(self, now: Tick) -> Option<Completed> {
        match self.completed {
            Some(done) => match done.expires {
                Some(until) if now.0 >= until.0 => None,
                _ => Some(done),
            },
            None => None,
        }
    }

    /// The state after an intake, and what it answers.
    pub open spec fn taking(self, req_id: ReqId, at: u64, now: Tick) -> (Self, OfferIntake) {
        let kept = ClockModel { completed: self.replayable(now), ..self };
        if kept.completed matches Some(done) && done.of == (Answered { req_id, at }) {
            (kept, OfferIntake::Accepted)
        } else if first_of(kept.pending, Some(req_id), 0) < kept.pending.len() {
            (kept, OfferIntake::Pending)
        } else if kept.limited(now) {
            (kept.counting(now), OfferIntake::RateLimited)
        } else if kept.completed is Some {
            (kept, OfferIntake::Full)
        } else if first_of(kept.pending, None, 0) < kept.pending.len() {
            (
                ClockModel {
                    pending: kept.pending.update(first_of(kept.pending, None, 0), Some(req_id)),
                    ..kept
                },
                OfferIntake::Queued,
            )
        } else {
            (kept, OfferIntake::Full)
        }
    }

    /// The state once a request's answer is taken.
    pub open spec fn releasing(self, req_id: ReqId) -> Self {
        let at = first_of(self.pending, Some(req_id), 0);
        if at < self.pending.len() {
            ClockModel { pending: self.pending.update(at, None), ..self }
        } else {
            self
        }
    }

    /// The state once a lost link's work is forgotten.
    pub open spec fn cancelling(self) -> Self {
        ClockModel {
            pending: seq![None, None, None, None],
            completed: None,
            audit: match self.audit {
                Some(audit) => Some(Audit { reply: None, ..audit }),
                None => None,
            },
            ..self
        }
    }

    /// Whether another change may be started at `now`.
    pub open spec fn ready(self, now: Tick) -> bool {
        self.audit is None && self.replayable(now) is None
    }

    /// The state after an audit attempt is asked for at `now`, and the change
    /// to append.
    pub open spec fn auditing(self, now: Tick) -> (Self, Option<ClockChange>) {
        match self.audit {
            Some(audit) => match audit.retry_at {
                Some(at) if now.0 >= at.0 => (
                    ClockModel {
                        audit: Some(
                            Audit { retry_at: now.spec_after(Millis(AUDIT_RETRY)), ..audit },
                        ),
                        ..self
                    },
                    Some(audit.change),
                ),
                _ => (self, None),
            },
            None => (self, None),
        }
    }

    /// The state once the audit is durable, and whom to answer.
    pub open spec fn audited(self, now: Tick) -> (Self, Option<ReqId>) {
        match self.audit {
            Some(audit) => match audit.reply {
                Some(of) => (
                    ClockModel {
                        audit: None,
                        completed: Some(
                            Completed { of, expires: now.spec_after(Millis(OFFER_REPLAY)) },
                        ),
                        ..self
                    },
                    Some(of.req_id),
                ),
                None => (ClockModel { audit: None, ..self }, None),
            },
            None => (self, None),
        }
    }
}

/// Admission state for one controller boot. A comms reset does not reset it.
#[derive(Debug)]
pub struct WallClock {
    last_offer: Option<Tick>,
    rate_refusals: u64,
    pending: [Option<ReqId>; MAX_INFLIGHT],
    audit: Option<Audit>,
    completed: Option<Completed>,
}

impl View for WallClock {
    type V = ClockModel;

    closed spec fn view(&self) -> ClockModel {
        ClockModel {
            last_offer: self.last_offer,
            rate_refusals: self.rate_refusals,
            pending: self.pending@,
            audit: self.audit,
            completed: self.completed,
        }
    }
}

impl Default for WallClock {
    fn default() -> (r: Self)
        ensures
            r@ == ClockModel::fresh(),
    {
        Self::new()
    }
}

/// The first place in the four slots that holds `what`, or four.
fn find(slots: &[Option<ReqId>; MAX_INFLIGHT], what: Option<ReqId>) -> (r: usize)
    ensures
        r == first_of(slots@, what, 0),
        r <= MAX_INFLIGHT,
{
    let mut i: usize = 0;
    while i < MAX_INFLIGHT
        invariant
            i <= MAX_INFLIGHT,
            slots@.len() == MAX_INFLIGHT,
            first_of(slots@, what, 0) == first_of(slots@, what, i as int),
        decreases MAX_INFLIGHT - i,
    {
        let found = match (slots[i], what) {
            (Some(a), Some(b)) => a.0 == b.0,
            (None, None) => true,
            _ => false,
        };
        if found {
            return i;
        }
        i = i + 1;
    }
    i
}

impl WallClock {
    /// No offer accepted during this boot.
    pub fn new() -> (r: Self)
        ensures
            r@ == ClockModel::fresh(),
    {
        let r = WallClock {
            last_offer: None,
            rate_refusals: 0,
            pending: [None, None, None, None],
            audit: None,
            completed: None,
        };
        proof {
            assert(r@.pending =~= ClockModel::fresh().pending);
        }
        r
    }

    /// Four slots, always.
    pub proof fn lemma_sound(&self)
        ensures
            self@.sound(),
    {
    }

    /// Recover the floor after a successful log scan. A present timestamp
    /// always wins, even when it predates the build.
    pub fn floor(newest: Option<u64>, build: u64) -> (r: Option<UnixMillis>)
        ensures
            ({
                let at = match newest {
                    Some(at) => at,
                    None => build,
                };
                (r is None <==> at == 0) && (r matches Some(floor) ==> floor@ == at)
            }),
    {
        match newest {
            Some(at) => UnixMillis::new(at),
            None => UnixMillis::new(build),
        }
    }

    /// Check an offer against the current clock and the recovered floor, the
    /// newest timestamped record, or the build timestamp only after a
    /// successful scan found none.
    ///
    /// This does not move the clock. No claim of the peer's about accuracy or
    /// source enters this decision.
    pub fn offer(
        &mut self,
        at: u64,
        current: Option<UnixMillis>,
        floor: UnixMillis,
        now: Tick,
    ) -> (r: Result<ClockChange, TimeOffer>)
        ensures
            final(self)@ == old(self)@.counting(now),
            ({
                let known = match current {
                    Some(old) => Some(old@),
                    None => None,
                };
                match r {
                    Ok(change) => old(self)@.judged(at, known, floor@, now) == Ok::<
                        TimeSet,
                        TimeOffer,
                    >(change@),
                    Err(why) => old(self)@.judged(at, known, floor@, now) == Err::<
                        TimeSet,
                        TimeOffer,
                    >(why),
                }
            }),
    {
        if self.refuse_rate_limited(now) {
            return Err(TimeOffer::RefusedRateLimited);
        }
        match current {
            Some(old) => {
                let known: u64 = old.as_millis();
                let step: u64 = if at >= known {
                    at - known
                } else {
                    known - at
                };
                if step > OFFER_STEP {
                    return Err(TimeOffer::RefusedStepTooLarge);
                }
            },
            None => {
                let least: u64 = floor.as_millis();
                if at < least || at - least > PLAUSIBILITY_SPAN {
                    return Err(TimeOffer::RefusedImplausible);
                }
            },
        }
        match UnixMillis::new(at) {
            Some(new) => Ok(ClockChange { old: current, new, source: TimeSource::NtpViaComms }),
            None => Err(TimeOffer::RefusedImplausible),
        }
    }

    /// Reserve a request until its answer is taken. Log work and queued
    /// answers count toward the same bound; retries do not consume a slot.
    pub fn intake(&mut self, req_id: ReqId, at: u64, now: Tick) -> (r: OfferIntake)
        ensures
            (final(self)@, r) == old(self)@.taking(req_id, at, now),
    {
        if let Some(done) = self.completed {
            if let Some(until) = done.expires {
                if now.0 >= until.0 {
                    self.completed = None;
                }
            }
        }
        if let Some(done) = self.completed {
            if done.of == (Answered { req_id, at }) {
                return OfferIntake::Accepted;
            }
        }
        if find(&self.pending, Some(req_id)) < MAX_INFLIGHT {
            return OfferIntake::Pending;
        }
        if self.refuse_rate_limited(now) {
            return OfferIntake::RateLimited;
        }
        // Never replace an unexpired acceptance. Normally the rate limit
        // already refused; this also covers an audit completed very late.
        if self.completed.is_some() {
            return OfferIntake::Full;
        }
        let free: usize = find(&self.pending, None);
        if free >= MAX_INFLIGHT {
            return OfferIntake::Full;
        }
        self.pending[free] = Some(req_id);
        OfferIntake::Queued
    }

    /// Release a request after its answer, or after a storage failure.
    pub fn finished(&mut self, req_id: ReqId)
        ensures
            final(self)@ == old(self)@.releasing(req_id),
    {
        let at: usize = find(&self.pending, Some(req_id));
        if at < MAX_INFLIGHT {
            self.pending[at] = None;
        }
    }

    /// Forget a lost link's work while retaining the controller's rate limit.
    pub fn cancel_pending(&mut self)
        ensures
            final(self)@ == old(self)@.cancelling(),
    {
        self.pending = [None, None, None, None];
        self.completed = None;
        if let Some(audit) = self.audit {
            self.audit = Some(
                Audit { change: audit.change, reply: None, retry_at: audit.retry_at },
            );
        }
        proof {
            assert(self@.pending =~= old(self)@.cancelling().pending);
        }
    }

    /// Retain an applied change until its audit is durable. The change must be
    /// retained across a reset before this is called. An occupied audit slot
    /// refuses replacement, even after link loss.
    #[must_use]
    pub fn applied(
        &mut self,
        req_id: ReqId,
        offered: OfferedTime,
        change: ClockChange,
        now: Tick,
    ) -> (r: bool)
        ensures
            r == (old(self)@.audit is None),
            !r ==> final(self)@ == old(self)@,
            r ==> final(self)@ == (ClockModel {
                last_offer: Some(now),
                audit: Some(
                    Audit {
                        change,
                        reply: Some(Answered { req_id, at: offered@.0 }),
                        retry_at: Some(now),
                    },
                ),
                ..old(self)@
            }),
    {
        if self.audit.is_some() {
            return false;
        }
        self.offer_applied(now);
        self.audit = Some(
            Audit {
                change,
                reply: Some(Answered { req_id, at: offered.at }),
                retry_at: Some(now),
            },
        );
        true
    }

    /// Recover a retained change after a reset, with nobody to answer.
    #[must_use]
    pub fn recover_audit(&mut self, change: ClockChange) -> (r: bool)
        ensures
            r == (old(self)@.audit is None),
            !r ==> final(self)@ == old(self)@,
            r ==> final(self)@ == (ClockModel {
                audit: Some(Audit { change, reply: None, retry_at: Some(Tick(0)) }),
                ..old(self)@
            }),
    {
        if self.audit.is_some() {
            return false;
        }
        self.audit = Some(Audit { change, reply: None, retry_at: Some(Tick::zero()) });
        true
    }

    /// Whether another calendar change must wait for the audit to land.
    #[must_use]
    pub fn audit_pending(&self) -> (r: bool)
        ensures
            r == (self@.audit is Some),
    {
        self.audit.is_some()
    }

    /// Queued work also waits for a late audit's reply-cache horizon. This
    /// prevents an older queued request from evicting a completed acceptance.
    #[must_use]
    pub fn ready_for_offer(&self, now: Tick) -> (r: bool)
        ensures
            r == self@.ready(now),
    {
        if self.audit.is_some() {
            return false;
        }
        match self.completed {
            Some(done) => match done.expires {
                Some(until) => now.0 >= until.0,
                None => false,
            },
            None => true,
        }
    }

    /// One bounded audit attempt. A failure leaves the original record intact.
    pub fn audit_due(&mut self, now: Tick) -> (r: Option<ClockChange>)
        ensures
            (final(self)@, r) == old(self)@.auditing(now),
    {
        let audit = match self.audit {
            Some(audit) => audit,
            None => {
                return None;
            },
        };
        match audit.retry_at {
            Some(at) => {
                if now.0 < at.0 {
                    return None;
                }
            },
            None => {
                return None;
            },
        }
        self.audit = Some(
            Audit {
                change: audit.change,
                reply: audit.reply,
                retry_at: now.after(Millis::from_millis(AUDIT_RETRY)),
            },
        );
        Some(audit.change)
    }

    /// Complete only after both the append and the acknowledgement of the
    /// retained change succeed. Retain the accepted result through the retry
    /// horizon, even if its reply is lost. A cancelled link gets no reply.
    pub fn audit_written(&mut self, now: Tick) -> (r: Option<ReqId>)
        ensures
            (final(self)@, r) == old(self)@.audited(now),
    {
        let audit = match self.audit {
            Some(audit) => audit,
            None => {
                return None;
            },
        };
        self.audit = None;
        match audit.reply {
            Some(of) => {
                self.completed = Some(
                    Completed { of, expires: now.after(Millis::from_millis(OFFER_REPLAY)) },
                );
                Some(of.req_id)
            },
            None => None,
        }
    }

    /// Refuse and count an offer at intake without waiting for the log. This
    /// keeps a flood inside the rate window out of the queue.
    pub fn refuse_rate_limited(&mut self, now: Tick) -> (r: bool)
        ensures
            r == old(self)@.limited(now),
            final(self)@ == old(self)@.counting(now),
    {
        let limited = match self.last_offer {
            Some(last) => match now.since(last) {
                Some(elapsed) => elapsed.as_millis() < OFFER_INTERVAL,
                None => true,
            },
            None => false,
        };
        if limited && self.rate_refusals < u64::MAX {
            self.rate_refusals = self.rate_refusals + 1;
        }
        limited
    }

    /// Start the offer limit after the clock accepted the change.
    pub fn offer_applied(&mut self, now: Tick)
        ensures
            final(self)@ == (ClockModel { last_offer: Some(now), ..old(self)@ }),
    {
        self.last_offer = Some(now);
    }

    /// Every offer refused inside the limit, saturating rather than wrapping.
    #[must_use]
    pub fn rate_refusals(&self) -> (r: u64)
        ensures
            r == self@.rate_refusals,
    {
        self.rate_refusals
    }
}

/// Nothing before the place found matches.
proof fn lemma_first_of(slots: Seq<Option<ReqId>>, what: Option<ReqId>, from: int)
    requires
        0 <= from <= slots.len(),
    ensures
        from <= first_of(slots, what, from) <= slots.len(),
        first_of(slots, what, from) < slots.len() ==> slots[first_of(slots, what, from)] == what,
        forall|i: int| from <= i < first_of(slots, what, from) ==> #[trigger] slots[i] != what,
    decreases slots.len() - from,
{
    if from < slots.len() && slots[from] != what {
        lemma_first_of(slots, what, from + 1);
    }
}

/// After an accepted offer, every offer for fifteen minutes on the tick is
/// refused, whatever it offers and whatever the wall clock says.
pub proof fn law_one_offer_a_quarter_hour(
    clock: ClockModel,
    at: u64,
    current: Option<u64>,
    floor: u64,
    accepted: Tick,
    now: Tick,
)
    requires
        now.0 < accepted.0 + 900_000,
    ensures
        (ClockModel { last_offer: Some(accepted), ..clock }).judged(at, current, floor, now) == Err::<
            TimeSet,
            TimeOffer,
        >(TimeOffer::RefusedRateLimited),
{
}

/// A correction to a known clock is at most five seconds, and the first
/// setting of an unknown one is never before the floor.
pub proof fn law_an_offer_moves_the_clock_little(
    clock: ClockModel,
    at: u64,
    current: Option<u64>,
    floor: u64,
    now: Tick,
)
    ensures
        clock.judged(at, current, floor, now) matches Ok(change) ==> {
            &&& change.new == at
            &&& change.old == current
            &&& change.source == TimeSource::NtpViaComms
            &&& current matches Some(old) ==> apart(at, old) <= 5_000
            &&& current is None ==> floor <= at <= floor + PLAUSIBILITY_SPAN
        },
{
}

/// An intake evicts no request: every one that was awaiting its answer still
/// is, and at most one is added.
pub proof fn law_an_intake_evicts_nothing(clock: ClockModel, req_id: ReqId, at: u64, now: Tick)
    requires
        clock.sound(),
    ensures
        clock.taking(req_id, at, now).0.sound(),
        forall|i: int|
            0 <= i < MAX_INFLIGHT && clock.pending[i] is Some ==> #[trigger] clock.taking(
                req_id,
                at,
                now,
            ).0.pending[i] == clock.pending[i],
        clock.taking(req_id, at, now).1 == OfferIntake::Queued ==> exists|i: int|
            0 <= i < MAX_INFLIGHT && clock.pending[i] is None && #[trigger] clock.taking(
                req_id,
                at,
                now,
            ).0.pending[i] == Some(req_id),
        clock.taking(req_id, at, now).1 != OfferIntake::Queued ==> clock.taking(
            req_id,
            at,
            now,
        ).0.pending == clock.pending,
{
    lemma_first_of(clock.pending, None, 0);
    lemma_first_of(clock.pending, Some(req_id), 0);
    let k = first_of(clock.pending, None, 0);
    if clock.taking(req_id, at, now).1 == OfferIntake::Queued {
        assert(clock.taking(req_id, at, now).0.pending[k] == Some(req_id));
    }
}

/// With four requests awaiting answers a fifth is never queued.
pub proof fn law_a_fifth_request_is_refused(clock: ClockModel, req_id: ReqId, at: u64, now: Tick)
    requires
        clock.sound(),
        forall|i: int| 0 <= i < MAX_INFLIGHT ==> (#[trigger] clock.pending[i]) is Some,
    ensures
        clock.taking(req_id, at, now).1 != OfferIntake::Queued,
{
    lemma_first_of(clock.pending, None, 0);
}

/// A request being processed is never queued a second time.
pub proof fn law_a_retry_is_not_executed_twice(
    clock: ClockModel,
    req_id: ReqId,
    at: u64,
    now: Tick,
    again: u64,
    later: Tick,
)
    requires
        clock.sound(),
        clock.taking(req_id, at, now).1 == OfferIntake::Queued,
    ensures
        clock.taking(req_id, at, now).0.taking(req_id, again, later).1 != OfferIntake::Queued,
{
    let after = clock.taking(req_id, at, now).0;
    lemma_first_of(clock.pending, None, 0);
    let k = first_of(clock.pending, None, 0);
    assert(after.pending[k] == Some(req_id));
    lemma_first_of(after.pending, Some(req_id), 0);
}

/// An applied change stays owed to the log, unchanged, through everything but
/// its own completion.
pub proof fn law_an_audit_is_kept_until_it_is_written(
    clock: ClockModel,
    req_id: ReqId,
    at: u64,
    now: Tick,
)
    requires
        clock.audit is Some,
    ensures
        clock.taking(req_id, at, now).0.audit == clock.audit,
        clock.counting(now).audit == clock.audit,
        clock.releasing(req_id).audit == clock.audit,
        clock.cancelling().audit matches Some(audit) && audit.change == clock.audit->0.change,
        clock.auditing(now).0.audit matches Some(audit) && audit.change == clock.audit->0.change,
        !clock.ready(now),
{
}

/// A written audit answers the request it was for, and a retry of that request
/// is answered the same way for the whole replay horizon without a second
/// change.
pub proof fn law_a_lost_reply_is_replayed(clock: ClockModel, of: Answered, now: Tick, later: Tick)
    requires
        clock.audit matches Some(audit) && audit.reply == Some(of),
        now.0 <= later.0 < now.0 + OFFER_REPLAY,
    ensures
        clock.audited(now).1 == Some(of.req_id),
        clock.audited(now).0.taking(of.req_id, of.at, later).1 == OfferIntake::Accepted,
        clock.audited(now).0.taking(of.req_id, of.at, later).0 == clock.audited(now).0,
{
}

/// Everything an offer may be is taken: with no offer accepted in the last
/// fifteen minutes, an unknown clock takes every value but zero from the floor
/// to ten years past it, and a known clock every value but zero within five
/// seconds of it. The change names the value offered and the reading it
/// replaces.
pub proof fn law_an_offer_in_bounds_is_accepted(
    clock: ClockModel,
    at: u64,
    current: Option<u64>,
    floor: u64,
    now: Tick,
)
    requires
        clock.last_offer matches Some(last) ==> now.0 >= last.0 + 900_000,
        at != 0,
        current is None ==> floor <= at <= floor + 315_576_000_000,
        current matches Some(old) ==> old - 5_000 <= at <= old + 5_000,
    ensures
        clock.judged(at, current, floor, now) matches Ok(change) && {
            &&& change.new == at
            &&& change.old == current
            &&& change.source == TimeSource::NtpViaComms
        },
{
}

/// Each refusal has its own reason and no other: the limit first, whatever is
/// offered; then the step, of a known clock alone; then the floor and the span
/// past it, of an unknown one, and zero of either.
pub proof fn law_an_offer_is_refused_for_its_reason(
    clock: ClockModel,
    at: u64,
    current: Option<u64>,
    floor: u64,
    now: Tick,
)
    ensures
        ({
            let answer = clock.judged(at, current, floor, now);
            let soon = clock.last_offer is Some && now.0 < (clock.last_offer->0).0 + 900_000;
            let far = current is Some && (at > current->0 + 5_000 || at < current->0 - 5_000);
            let wild = current is None && (at < floor || at > floor + 315_576_000_000);
            &&& answer == Err::<TimeSet, TimeOffer>(TimeOffer::RefusedRateLimited) <==> soon
            &&& answer == Err::<TimeSet, TimeOffer>(TimeOffer::RefusedStepTooLarge) <==> !soon
                && far
            &&& answer == Err::<TimeSet, TimeOffer>(TimeOffer::RefusedImplausible) <==> !soon
                && !far && (wild || at == 0)
            &&& answer is Ok <==> !soon && !far && !wild && at != 0
        }),
{
}

/// An offer is counted exactly when it is refused on the limit, one for one up
/// to the counter's end, and checking it changes nothing else.
pub proof fn law_the_refusals_on_the_limit_are_counted(
    clock: ClockModel,
    at: u64,
    current: Option<u64>,
    floor: u64,
    now: Tick,
)
    ensures
        ({
            let after = clock.counting(now);
            let refused = clock.judged(at, current, floor, now) == Err::<TimeSet, TimeOffer>(
                TimeOffer::RefusedRateLimited,
            );
            &&& refused && clock.rate_refusals < u64::MAX ==> after.rate_refusals
                == clock.rate_refusals + 1
            &&& !refused || clock.rate_refusals == u64::MAX ==> after.rate_refusals
                == clock.rate_refusals
            &&& after.last_offer == clock.last_offer
            &&& after.pending == clock.pending
            &&& after.audit == clock.audit
            &&& after.completed == clock.completed
        }),
{
}

/// A new request finds a place whenever there is one: outside the limit, with
/// no acceptance still replayable and one of the four places free, it is
/// queued.
pub proof fn law_a_new_request_is_queued_where_there_is_room(
    clock: ClockModel,
    req_id: ReqId,
    at: u64,
    now: Tick,
    free: int,
)
    requires
        clock.sound(),
        clock.last_offer matches Some(last) ==> now.0 >= last.0 + 900_000,
        clock.completed matches Some(done) ==> (done.expires matches Some(until) && until.0
            <= now.0),
        0 <= free < 4,
        clock.pending[free] is None,
        forall|i: int| 0 <= i < 4 ==> (#[trigger] clock.pending[i]) != Some(req_id),
    ensures
        clock.taking(req_id, at, now).1 == OfferIntake::Queued,
        clock.taking(req_id, at, now).0.rate_refusals == clock.rate_refusals,
        clock.taking(req_id, at, now).0.last_offer == clock.last_offer,
{
    lemma_first_of(clock.pending, None, 0);
    lemma_first_of(clock.pending, Some(req_id), 0);
    if first_of(clock.pending, Some(req_id), 0) < clock.pending.len() {
        assert(clock.pending[first_of(clock.pending, Some(req_id), 0)] == Some(req_id));
    }
    if first_of(clock.pending, None, 0) == clock.pending.len() {
        assert(clock.pending[free] is Some);
    }
}

/// A request awaiting its answer is told so, and one that is not is never told
/// so; one told it was accepted is the very request and value that were.
pub proof fn law_an_intake_tells_a_retry_from_a_new_request(
    clock: ClockModel,
    req_id: ReqId,
    at: u64,
    now: Tick,
)
    requires
        clock.sound(),
    ensures
        ({
            let answer = clock.taking(req_id, at, now).1;
            let waits = exists|i: int| 0 <= i < 4 && clock.pending[i] == Some(req_id);
            let replays = clock.completed is Some && clock.completed->0.of.req_id == req_id
                && clock.completed->0.of.at == at && (clock.completed->0.expires is Some
                ==> now.0 < (clock.completed->0.expires->0).0);
            let soon = clock.last_offer is Some && now.0 < (clock.last_offer->0).0 + 900_000;
            &&& answer == OfferIntake::Accepted <==> replays
            &&& answer == OfferIntake::Pending <==> waits && !replays
            &&& answer == OfferIntake::RateLimited <==> soon && !waits && !replays
        }),
{
    lemma_first_of(clock.pending, None, 0);
    lemma_first_of(clock.pending, Some(req_id), 0);
    let k = first_of(clock.pending, Some(req_id), 0);
    if k < clock.pending.len() {
        assert(clock.pending[k] == Some(req_id));
    } else {
        assert forall|i: int| 0 <= i < 4 implies clock.pending[i] != Some(req_id) by {}
    }
}

/// A request queued and then answered leaves the places as they were.
pub proof fn law_an_answer_gives_its_place_back(
    clock: ClockModel,
    req_id: ReqId,
    at: u64,
    now: Tick,
)
    requires
        clock.sound(),
        clock.taking(req_id, at, now).1 == OfferIntake::Queued,
    ensures
        clock.taking(req_id, at, now).0.releasing(req_id).pending == clock.pending,
        clock.taking(req_id, at, now).0.releasing(req_id).last_offer == clock.last_offer,
        clock.taking(req_id, at, now).0.releasing(req_id).audit == clock.audit,
{
    let after = clock.taking(req_id, at, now).0;
    lemma_first_of(clock.pending, None, 0);
    lemma_first_of(clock.pending, Some(req_id), 0);
    lemma_first_of(after.pending, Some(req_id), 0);
    let k = first_of(clock.pending, None, 0);
    assert(after.pending[k] == Some(req_id));
    let j = first_of(after.pending, Some(req_id), 0);
    assert(j == k) by {
        if j < k {
            assert(clock.pending[j] == Some(req_id));
        }
    }
    assert(after.releasing(req_id).pending =~= clock.pending);
}

/// A lost link leaves nobody to answer, and neither the limit nor the change
/// owed to the log is reset by it.
pub proof fn law_a_lost_link_keeps_the_limit(clock: ClockModel, req_id: ReqId, now: Tick)
    requires
        clock.sound(),
    ensures
        ({
            let after = clock.cancelling();
            &&& after.sound()
            &&& forall|i: int| 0 <= i < 4 ==> (#[trigger] after.pending[i]) is None
            &&& after.completed is None
            &&& after.last_offer == clock.last_offer
            &&& after.rate_refusals == clock.rate_refusals
            &&& after.audit is Some <==> clock.audit is Some
            &&& after.audit matches Some(audit) ==> audit.reply is None && audit.change
                == clock.audit->0.change && audit.retry_at == clock.audit->0.retry_at
            &&& after.audited(now).1 is None
            &&& after.ready(now) <==> clock.audit is None
        }),
{
}

/// A change owed to the log is handed out once it is due, and then not again
/// for a second, while nothing else moves.
pub proof fn law_an_audit_is_tried_once_a_second(clock: ClockModel, now: Tick, later: Tick)
    requires
        clock.audit matches Some(audit) && (audit.retry_at matches Some(at) && at.0 <= now.0),
        now.0 <= later.0,
        now.0 + 1_000 <= u64::MAX,
    ensures
        clock.auditing(now).1 == Some(clock.audit->0.change),
        clock.auditing(now).0.auditing(later).1 is Some <==> later.0 >= now.0 + 1_000,
        clock.auditing(now).0.audited(later).1 == clock.audited(later).1,
        clock.auditing(now).0.pending == clock.pending,
        clock.auditing(now).0.last_offer == clock.last_offer,
{
}

/// Nothing is handed out before it is due, nor without a change owed.
pub proof fn law_an_audit_waits_until_it_is_due(clock: ClockModel, now: Tick)
    requires
        clock.audit matches Some(audit) ==> (audit.retry_at matches Some(at) ==> now.0 < at.0),
    ensures
        clock.auditing(now) == (clock, None::<ClockChange>),
{
}

/// An acceptance is replayed for a second and a half and no longer, and only
/// to the value it was given for.
pub proof fn law_a_replay_ends(clock: ClockModel, of: Answered, now: Tick, later: Tick, other: u64)
    requires
        clock.audit matches Some(audit) && audit.reply == Some(of),
        now.0 + 1_500 <= later.0,
    ensures
        clock.audited(now).0.taking(of.req_id, of.at, later).1 != OfferIntake::Accepted,
        other != of.at ==> clock.audited(now).0.taking(of.req_id, other, now).1
            != OfferIntake::Accepted,
        clock.audited(now).0.ready(later),
        !clock.audited(now).0.ready(now),
{
}

} // verus!
