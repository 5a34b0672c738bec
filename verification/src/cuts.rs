//! The recovery ladder's memory: the cuts of the module rail in the last hour,
//! and what of them outlives a controller reset.
//!
//! The instants are on the tick of the boot that wrote them, which a reset
//! restarts; so a boot carries every one of them as made at its own start.
//! That counts a cut as recent for up to an hour longer than it was, and never
//! for less.

use vstd::prelude::*;

use crate::body::{body_of, padded, Body, Held, Malformed};
use crate::boot_count::BootCount;
use crate::bytes::{
    from_le, le, lemma_from_le_bound, lemma_le_len, lemma_le_round_trip, lemma_spans, push_le,
    read_le,
};
use crate::tick::{Millis, Tick};

verus! {

broadcast use lemma_le_len;

/// The window the ladder counts cycles in, in milliseconds: an hour.
pub const HOUR: u64 = 3_600_000;

/// Cycles in an hour after which the third rung applies.
pub const CYCLES_BEFORE_THE_THIRD_RUNG: usize = 3;

/// The bytes [`RecentCuts`] takes in its record: a count, then an instant for
/// each cut the ladder remembers.
pub const RECENT_CUTS_BYTES: usize = 25;

/// The bytes a [`CutsRecord`] takes: the boot count, then the cuts.
pub const CUTS_RECORD_BYTES: usize = 29;

/// How long after a write of the cuts that did not land the next is tried, in
/// milliseconds.
pub const KEEP_RETRY: u64 = 1_000;

/// The ladder's cuts, one to a slot: as many as the third rung needs.
#[derive(Debug, Clone, Copy, PartialEq, Eq, Structural)]
pub struct RecentCuts(pub Option<Tick>, pub Option<Tick>, pub Option<Tick>);

/// The cuts in a run of slots, in slot order.
pub open spec fn ticks(slots: Seq<Option<Tick>>) -> Seq<Tick>
    decreases slots.len(),
{
    if slots.len() == 0 {
        Seq::empty()
    } else {
        match slots.last() {
            Some(at) => ticks(slots.drop_last()).push(at),
            None => ticks(slots.drop_last()),
        }
    }
}

/// Whether a cut at `at` is at most an hour before `now`, and not after it.
pub open spec fn is_recent(at: Tick, now: Tick) -> bool {
    at.0 <= now.0 && now.0 - at.0 <= HOUR
}

/// The cuts in a run of slots that are recent at `now`, in slot order.
pub open spec fn recent(slots: Seq<Option<Tick>>, now: Tick) -> Seq<Tick> {
    ticks(slots).filter(|at: Tick| is_recent(at, now))
}

/// `s`, in ascending order, with `at` in its place.
pub open spec fn placed_in(s: Seq<Tick>, at: Tick) -> Seq<Tick>
    decreases s.len(),
{
    if s.len() == 0 || s.last().0 <= at.0 {
        s.push(at)
    } else {
        placed_in(s.drop_last(), at).push(s.last())
    }
}

/// The instants of `s`, oldest first.
pub open spec fn ascending(s: Seq<Tick>) -> Seq<Tick>
    decreases s.len(),
{
    if s.len() == 0 {
        s
    } else {
        placed_in(ascending(s.drop_last()), s.last())
    }
}

/// The slots that hold the first three of `s`.
pub open spec fn kept(s: Seq<Tick>) -> RecentCuts {
    RecentCuts(
        if s.len() > 0 {
            Some(s[0])
        } else {
            None
        },
        if s.len() > 1 {
            Some(s[1])
        } else {
            None
        },
        if s.len() > 2 {
            Some(s[2])
        } else {
            None
        },
    )
}

/// Whether slot `a` is written over before slot `b`: an empty slot before any
/// cut, and an earlier cut before a later one.
pub open spec fn goes_before(a: Option<Tick>, b: Option<Tick>) -> bool {
    match (a, b) {
        (None, Some(_)) => true,
        (Some(x), Some(y)) => x.0 < y.0,
        _ => false,
    }
}

/// The slot a new cut is written over: the first that no other goes before.
pub open spec fn next_slot(slots: Seq<Option<Tick>>) -> int
    decreases slots.len(),
{
    if slots.len() <= 1 {
        0
    } else {
        let best = next_slot(slots.drop_last());
        if goes_before(slots.last(), slots[best]) {
            slots.len() - 1
        } else {
            best
        }
    }
}

/// The cuts of the last hour of `cuts` at `now`, oldest first.
pub open spec fn of_the_hour(cuts: RecentCuts, now: Tick) -> RecentCuts {
    kept(ascending(recent(cuts.slots(), now)))
}

/// `cuts` with a cut at `now`.
pub open spec fn remembered(cuts: RecentCuts, now: Tick) -> RecentCuts {
    let slots = cuts.slots().update(next_slot(cuts.slots()), Some(now));
    RecentCuts(slots[0], slots[1], slots[2])
}

/// `cuts` with `n` cuts at `now`.
pub open spec fn remembered_times(cuts: RecentCuts, now: Tick, n: nat) -> RecentCuts
    decreases n,
{
    if n == 0 {
        cuts
    } else {
        remembered(remembered_times(cuts, now, (n - 1) as nat), now)
    }
}

/// The instants of `s` as bytes, eight each.
pub open spec fn stamps(s: Seq<Tick>) -> Seq<u8>
    decreases s.len(),
{
    if s.len() == 0 {
        Seq::empty()
    } else {
        stamps(s.drop_last()) + le(s.last().0 as nat, 8)
    }
}

/// The instant `bytes` hold at place `i`.
pub open spec fn stamp_at(bytes: Seq<u8>, i: int) -> Tick {
    Tick(from_le(bytes.subrange(1 + 8 * i, 9 + 8 * i)) as u64)
}

/// One more slot adds its cut, when it holds one that is recent.
proof fn lemma_recent_push(slots: Seq<Option<Tick>>, slot: Option<Tick>, now: Tick)
    ensures
        recent(slots.push(slot), now) == (match slot {
            Some(at) => if is_recent(at, now) {
                recent(slots, now).push(at)
            } else {
                recent(slots, now)
            },
            None => recent(slots, now),
        }),
        ticks(slots.push(slot)) == (match slot {
            Some(at) => ticks(slots).push(at),
            None => ticks(slots),
        }),
{
    assert(slots.push(slot).drop_last() =~= slots);
    let near = |at: Tick| is_recent(at, now);
    match slot {
        Some(at) => {
            let before = ticks(slots);
            assert(before.push(at).drop_last() =~= before);
            reveal(Seq::filter);
        },
        None => {},
    }
}

/// With nothing in it, a run of slots holds no cut.
proof fn lemma_recent_empty(now: Tick)
    ensures
        recent(Seq::empty(), now) =~= Seq::<Tick>::empty(),
        ticks(Seq::empty()) =~= Seq::<Tick>::empty(),
{
    reveal(Seq::filter);
}

/// Sorting one more instant places it among those already sorted.
proof fn lemma_ascending_push(s: Seq<Tick>, at: Tick)
    ensures
        ascending(s.push(at)) == placed_in(ascending(s), at),
{
    assert(s.push(at).drop_last() =~= s);
}

/// Placing adds one instant and drops none.
proof fn lemma_placed_len(s: Seq<Tick>, at: Tick)
    ensures
        placed_in(s, at).len() == s.len() + 1,
    decreases s.len(),
{
    if s.len() != 0 && s.last().0 > at.0 {
        lemma_placed_len(s.drop_last(), at);
    }
}

/// Placing is an insertion after everything that is not later.
proof fn lemma_placed_is_inserted(s: Seq<Tick>, at: Tick, k: int)
    requires
        0 <= k <= s.len(),
        forall|j: int| k <= j < s.len() ==> (#[trigger] s[j]).0 > at.0,
        k > 0 ==> s[k - 1].0 <= at.0,
    ensures
        placed_in(s, at) =~= s.insert(k, at),
    decreases s.len(),
{
    if k < s.len() {
        lemma_placed_is_inserted(s.drop_last(), at, k);
        assert(s.insert(k, at) =~= s.drop_last().insert(k, at).push(s.last()));
    } else {
        assert(s.insert(k, at) =~= s.push(at));
    }
}

/// What a triple of slots holds, slot by slot.
pub proof fn lemma_three(cuts: RecentCuts, now: Tick)
    ensures
        cuts.slots() =~= Seq::<Option<Tick>>::empty().push(cuts.0).push(cuts.1).push(cuts.2),
        recent(Seq::empty(), now) =~= Seq::<Tick>::empty(),
        ticks(Seq::empty()) =~= Seq::<Tick>::empty(),
        forall|s: Seq<Option<Tick>>, slot: Option<Tick>| #[trigger]
            recent(s.push(slot), now) == (match slot {
                Some(at) => if is_recent(at, now) {
                    recent(s, now).push(at)
                } else {
                    recent(s, now)
                },
                None => recent(s, now),
            }),
        forall|s: Seq<Option<Tick>>, slot: Option<Tick>| #[trigger]
            ticks(s.push(slot)) == (match slot {
                Some(at) => ticks(s).push(at),
                None => ticks(s),
            }),
{
    lemma_recent_empty(now);
    assert forall|s: Seq<Option<Tick>>, slot: Option<Tick>| #[trigger]
        recent(s.push(slot), now) == (match slot {
            Some(at) => if is_recent(at, now) {
                recent(s, now).push(at)
            } else {
                recent(s, now)
            },
            None => recent(s, now),
        }) by {
        lemma_recent_push(s, slot, now);
    }
    assert forall|s: Seq<Option<Tick>>, slot: Option<Tick>| #[trigger]
        ticks(s.push(slot)) == (match slot {
            Some(at) => ticks(s).push(at),
            None => ticks(s),
        }) by {
        lemma_recent_push(s, slot, now);
    }
}

/// Put `slot`'s cut in its place in `sorted` when it is recent at `now`.
fn consider(sorted: &mut Vec<Tick>, slot: Option<Tick>, now: Tick)
    ensures
        final(sorted)@ == (match slot {
            Some(at) => if is_recent(at, now) {
                placed_in(old(sorted)@, at)
            } else {
                old(sorted)@
            },
            None => old(sorted)@,
        }),
{
    if let Some(at) = slot {
        if at.0 <= now.0 && now.0 - at.0 <= HOUR {
            let mut k: usize = sorted.len();
            while k > 0 && sorted[k - 1].0 > at.0
                invariant
                    k <= sorted@.len(),
                    sorted@ == old(sorted)@,
                    forall|j: int| k <= j < sorted@.len() ==> (#[trigger] sorted@[j]).0 > at.0,
                decreases k,
            {
                k = k - 1;
            }
            proof {
                lemma_placed_is_inserted(sorted@, at, k as int);
            }
            sorted.insert(k, at);
        }
    }
}

/// Whether slot `a` is written over before slot `b`.
fn goes_first(a: Option<Tick>, b: Option<Tick>) -> (r: bool)
    ensures
        r == goes_before(a, b),
{
    match (a, b) {
        (None, Some(_)) => true,
        (Some(x), Some(y)) => x.0 < y.0,
        _ => false,
    }
}

impl RecentCuts {
    /// The slots, in order.
    pub open spec fn slots(self) -> Seq<Option<Tick>> {
        seq![self.0, self.1, self.2]
    }

    /// How many cuts there are.
    pub open spec fn held(self) -> nat {
        ticks(self.slots()).len()
    }

    /// No cut in the last hour.
    pub fn none() -> (r: Self)
        ensures
            r == RecentCuts(None, None, None),
    {
        RecentCuts(None, None, None)
    }

    /// As many cuts as the third rung needs, all at the boot's start: what a
    /// record that does not read counts as.
    pub fn full() -> (r: Self)
        ensures
            r == RecentCuts(Some(Tick(0)), Some(Tick(0)), Some(Tick(0))),
    {
        RecentCuts(Some(Tick(0)), Some(Tick(0)), Some(Tick(0)))
    }

    /// Every cut moved to the boot's start.
    pub open spec fn spec_rebased(self) -> Self {
        let moved = |cut: Option<Tick>|
            match cut {
                Some(_) => Some(Tick(0)),
                None => None::<Tick>,
            };
        RecentCuts(moved(self.0), moved(self.1), moved(self.2))
    }

    /// Every cut moved to this boot's start: the previous boot's tick means
    /// nothing on this one, and the start is the latest the cut can have been.
    pub fn rebased(self) -> (r: Self)
        ensures
            r == self.spec_rebased(),
    {
        RecentCuts(
            if self.0.is_some() {
                Some(Tick::zero())
            } else {
                None
            },
            if self.1.is_some() {
                Some(Tick::zero())
            } else {
                None
            },
            if self.2.is_some() {
                Some(Tick::zero())
            } else {
                None
            },
        )
    }

    /// How many cuts.
    pub fn count(&self) -> (r: usize)
        ensures
            r == self.held(),
            r <= 3,
    {
        let mut n: usize = 0;
        if self.0.is_some() {
            n = n + 1;
        }
        if self.1.is_some() {
            n = n + 1;
        }
        if self.2.is_some() {
            n = n + 1;
        }
        proof {
            lemma_three(*self, Tick(0));
        }
        n
    }

    /// The cuts at most an hour before `now`, oldest first.
    pub fn within_the_hour(self, now: Tick) -> (r: Self)
        ensures
            r == of_the_hour(self, now),
    {
        let mut sorted: Vec<Tick> = Vec::new();
        proof {
            lemma_three(self, now);
            let none = Seq::<Option<Tick>>::empty();
            assert(ascending(recent(none, now)) =~= sorted@);
            lemma_ascending_of_recent(none, self.0, now);
            lemma_ascending_of_recent(none.push(self.0), self.1, now);
            lemma_ascending_of_recent(none.push(self.0).push(self.1), self.2, now);
        }
        consider(&mut sorted, self.0, now);
        consider(&mut sorted, self.1, now);
        consider(&mut sorted, self.2, now);
        RecentCuts(
            if sorted.len() > 0 {
                Some(sorted[0])
            } else {
                None
            },
            if sorted.len() > 1 {
                Some(sorted[1])
            } else {
                None
            },
            if sorted.len() > 2 {
                Some(sorted[2])
            } else {
                None
            },
        )
    }

    /// These cuts and one at `now`: in an empty slot first of all, then over
    /// the oldest cut. An empty slot goes before any cut, one carried at tick
    /// zero included.
    pub fn remember(self, now: Tick) -> (r: Self)
        ensures
            r == remembered(self, now),
    {
        proof {
            reveal_with_fuel(next_slot, 4);
            let slots = self.slots();
            assert(slots.drop_last() =~= seq![self.0, self.1]);
            assert(slots.drop_last().drop_last() =~= seq![self.0]);
        }
        let over_second = goes_first(self.1, self.0);
        let best = if over_second {
            self.1
        } else {
            self.0
        };
        if goes_first(self.2, best) {
            RecentCuts(self.0, self.1, Some(now))
        } else if over_second {
            RecentCuts(self.0, Some(now), self.2)
        } else {
            RecentCuts(Some(now), self.1, self.2)
        }
    }

    /// How many of these cuts are recent at `now`.
    pub fn recent_count(self, now: Tick) -> (r: usize)
        ensures
            r == recent(self.slots(), now).len(),
            r <= 3,
    {
        proof {
            lemma_three(self, now);
        }
        let mut n: usize = 0;
        if let Some(at) = self.0 {
            if at.0 <= now.0 && now.0 - at.0 <= HOUR {
                n = n + 1;
            }
        }
        if let Some(at) = self.1 {
            if at.0 <= now.0 && now.0 - at.0 <= HOUR {
                n = n + 1;
            }
        }
        if let Some(at) = self.2 {
            if at.0 <= now.0 && now.0 - at.0 <= HOUR {
                n = n + 1;
            }
        }
        n
    }
}

/// Sorting the recent cuts of one more slot places that slot's cut.
proof fn lemma_ascending_of_recent(slots: Seq<Option<Tick>>, slot: Option<Tick>, now: Tick)
    ensures
        ascending(recent(slots.push(slot), now)) == (match slot {
            Some(at) => if is_recent(at, now) {
                placed_in(ascending(recent(slots, now)), at)
            } else {
                ascending(recent(slots, now))
            },
            None => ascending(recent(slots, now)),
        }),
{
    lemma_recent_push(slots, slot, now);
    match slot {
        Some(at) => lemma_ascending_push(recent(slots, now), at),
        None => {},
    }
}

impl View for RecentCuts {
    type V = RecentCuts;

    open spec fn view(&self) -> RecentCuts {
        *self
    }
}

impl Body<25> for RecentCuts {
    open spec fn image(v: RecentCuts) -> Seq<u8> {
        padded(seq![v.held() as u8] + stamps(ticks(v.slots())), 25)
    }

    open spec fn reading(bytes: Seq<u8>) -> Result<RecentCuts, Malformed> {
        if bytes[0] > 3 {
            Err(Malformed { at: 0 })
        } else {
            Ok(kept(Seq::new(bytes[0] as nat, |i: int| stamp_at(bytes, i))))
        }
    }

    fn encode(&self) -> (r: [u8; 25]) {
        let n: usize = self.count();
        let mut parts: Vec<u8> = Vec::new();
        parts.push(n as u8);
        proof {
            lemma_three(*self, Tick(0));
            assert(parts@ =~= seq![n as u8] + stamps(Seq::empty()));
        }
        push_stamp(&mut parts, n as u8, self.0, Ghost(Seq::empty()));
        push_stamp(&mut parts, n as u8, self.1, Ghost(Seq::<Option<Tick>>::empty().push(self.0)));
        push_stamp(
            &mut parts,
            n as u8,
            self.2,
            Ghost(Seq::<Option<Tick>>::empty().push(self.0).push(self.1)),
        );
        proof {
            lemma_stamps_len(ticks(self.slots()));
        }
        body_of::<25>(parts.as_slice())
    }

    fn decode(bytes: &[u8; 25]) -> (r: Result<Self, Malformed>) {
        let whole = bytes.as_slice();
        let count: u8 = whole[0];
        if count > 3 {
            return Err(Malformed { at: 0 });
        }
        let cuts = RecentCuts(
            if count > 0 {
                Some(stamp_of(whole, 0))
            } else {
                None
            },
            if count > 1 {
                Some(stamp_of(whole, 1))
            } else {
                None
            },
            if count > 2 {
                Some(stamp_of(whole, 2))
            } else {
                None
            },
        );
        Ok(cuts)
    }
}

/// As many stamps as instants, eight bytes each.
proof fn lemma_stamps_len(s: Seq<Tick>)
    ensures
        stamps(s).len() == 8 * s.len(),
    decreases s.len(),
{
    if s.len() > 0 {
        lemma_stamps_len(s.drop_last());
    }
}

/// Append the stamp of a slot's cut, when it holds one.
fn push_stamp(parts: &mut Vec<u8>, n: u8, slot: Option<Tick>, Ghost(before): Ghost<Seq<Option<Tick>>>)
    requires
        old(parts)@ == seq![n] + stamps(ticks(before)),
    ensures
        final(parts)@ == seq![n] + stamps(ticks(before.push(slot))),
{
    proof {
        lemma_recent_push(before, slot, Tick(0));
    }
    if let Some(at) = slot {
        proof {
            assert(ticks(before).push(at).drop_last() =~= ticks(before));
            assert(seq![n] + stamps(ticks(before)) + le(at.0 as nat, 8) =~= seq![n] + (stamps(
                ticks(before),
            ) + le(at.0 as nat, 8)));
        }
        push_le(parts, at.0, 8);
    }
}

/// The instant a body holds at place `i`.
fn stamp_of(bytes: &[u8], i: usize) -> (r: Tick)
    requires
        i < 3,
        bytes@.len() == 25,
    ensures
        r == stamp_at(bytes@, i as int),
{
    let at: usize = 1 + 8 * i;
    let part = &bytes[at..at + 8];
    proof {
        assert(part@ =~= bytes@.subrange(1 + 8 * i, 9 + 8 * i));
    }
    Tick::from_millis(read_le(part))
}

/// The stamp at place `i` of a run of stamps is the instant's.
proof fn lemma_stamps_at(s: Seq<Tick>, i: int)
    requires
        0 <= i < s.len(),
    ensures
        stamps(s).len() == 8 * s.len(),
        stamps(s).subrange(8 * i, 8 * i + 8) == le(s[i].0 as nat, 8),
    decreases s.len(),
{
    lemma_stamps_len(s);
    lemma_stamps_len(s.drop_last());
    if i < s.len() - 1 {
        lemma_stamps_at(s.drop_last(), i);
        assert(stamps(s).subrange(8 * i, 8 * i + 8) =~= stamps(s.drop_last()).subrange(
            8 * i,
            8 * i + 8,
        ));
    } else {
        assert(stamps(s).subrange(8 * i, 8 * i + 8) =~= le(s[i].0 as nat, 8));
    }
}

/// Cuts written down read back in the same order, packed into the first slots;
/// cuts already packed read back as they were.
pub proof fn law_the_cuts_read_back(cuts: RecentCuts)
    ensures
        <RecentCuts as Body<25>>::reading(<RecentCuts as Body<25>>::image(cuts)) == Ok::<
            RecentCuts,
            Malformed,
        >(kept(ticks(cuts.slots()))),
        (cuts.1 is Some ==> cuts.0 is Some) && (cuts.2 is Some ==> cuts.1 is Some) ==> kept(
            ticks(cuts.slots()),
        ) == cuts,
{
    let s = ticks(cuts.slots());
    lemma_three(cuts, Tick(0));
    assert(s.len() <= 3);
    let bytes = <RecentCuts as Body<25>>::image(cuts);
    lemma_stamps_len(s);
    let read = Seq::new(bytes[0] as nat, |i: int| stamp_at(bytes, i));
    assert forall|i: int| 0 <= i < s.len() implies #[trigger] read[i] == s[i] by {
        lemma_stamps_at(s, i);
        assert(bytes.subrange(1 + 8 * i, 9 + 8 * i) =~= stamps(s).subrange(8 * i, 8 * i + 8));
        lemma_spans();
        lemma_le_round_trip(s[i].0 as nat, 8);
    }
    assert(read =~= s);
}

/// The ladder's record on the part: the cuts of the last hour, and the boot
/// count the part held when they were written. Every boot counted after that
/// one began with a reset, and none of their own records landed; the boot that
/// reads the record counts them.
#[derive(Debug, Clone, Copy, PartialEq, Eq, Structural)]
pub struct CutsRecord {
    /// The boot count on the part when the record was written: the writer's
    /// own once it has landed, the one before otherwise, and none on a part
    /// that never held one.
    pub boot: Option<BootCount>,
    /// The cuts of the last hour, on the writer's tick.
    pub cuts: RecentCuts,
}

/// What a [`CutsRecord`] says: the boot count, zero for none, and the cuts.
pub struct CutsModel {
    /// The boot count, zero for none.
    pub boot: u32,
    /// The cuts.
    pub cuts: RecentCuts,
}

impl View for CutsRecord {
    type V = CutsModel;

    open spec fn view(&self) -> CutsModel {
        CutsModel {
            boot: match self.boot {
                Some(boot) => boot@,
                None => 0,
            },
            cuts: self.cuts,
        }
    }
}

/// What a boot carries of the ladder: the cuts the part kept, as made at this
/// boot's start, and how many boots since the one that kept them began with a
/// reset whose own record never landed.
#[derive(Debug, Clone, Copy, PartialEq, Eq, Structural)]
pub struct CarriedCuts {
    /// The cuts the part kept, at this boot's tick zero.
    pub cuts: RecentCuts,
    /// The boots between the one that kept them and this one.
    pub missed: u32,
}

impl CarriedCuts {
    /// The full ladder, in the mathematical sense.
    pub open spec fn spec_full() -> Self {
        CarriedCuts {
            cuts: RecentCuts(Some(Tick(0)), Some(Tick(0)), Some(Tick(0))),
            missed: 0,
        }
    }

    /// The full ladder: what a record that does not read, or a boot with no
    /// store, carries.
    pub fn full() -> (r: Self)
        ensures
            r == Self::spec_full(),
    {
        CarriedCuts { cuts: RecentCuts::full(), missed: 0 }
    }
}

/// What the boot numbered `boot` carries of cuts kept at boot `kept_at`, zero
/// for none: the full ladder when the record names this boot or a later one.
pub open spec fn carried_since(cuts: RecentCuts, kept_at: u32, boot: u32) -> CarriedCuts {
    if boot > kept_at {
        CarriedCuts { cuts, missed: (boot - kept_at - 1) as u32 }
    } else {
        CarriedCuts::spec_full()
    }
}

impl CutsRecord {
    /// What the boot numbered `boot` carries of the record as it read: its
    /// cuts as made at this boot's start, and the boots between its writer and
    /// this one. None for a record never written, which no boot before this
    /// one kept; the full ladder for one that is there and does not read, or
    /// that names this boot or a later one, because a count the part lost is
    /// never taken as zero.
    pub fn carried(held: &Held<Self>, boot: BootCount) -> (r: CarriedCuts)
        ensures
            r == (match *held {
                Held::Present(record) => carried_since(
                    record.cuts.spec_rebased(),
                    record@.boot,
                    boot@,
                ),
                Held::Absent => carried_since(RecentCuts(None, None, None), 0, boot@),
                Held::Corrupt | Held::Malformed(_) => CarriedCuts::spec_full(),
            }),
    {
        let (cuts, kept_at): (RecentCuts, u32) = match held {
            Held::Present(record) => (
                record.cuts.rebased(),
                match record.boot {
                    Some(boot) => boot.get(),
                    None => 0,
                },
            ),
            Held::Absent => (RecentCuts::none(), 0),
            Held::Corrupt | Held::Malformed(_) => {
                return CarriedCuts::full();
            },
        };
        let number: u32 = boot.get();
        if number > kept_at {
            CarriedCuts { cuts, missed: number - kept_at - 1 }
        } else {
            CarriedCuts::full()
        }
    }
}

impl Body<29> for CutsRecord {
    open spec fn image(v: CutsModel) -> Seq<u8> {
        le(v.boot as nat, 4) + <RecentCuts as Body<25>>::image(v.cuts)
    }

    open spec fn reading(bytes: Seq<u8>) -> Result<CutsModel, Malformed> {
        match <RecentCuts as Body<25>>::reading(bytes.skip(4)) {
            Ok(cuts) => Ok(CutsModel { boot: from_le(bytes.take(4)) as u32, cuts }),
            Err(m) => Err(Malformed { at: (m.at + 4) as usize }),
        }
    }

    fn encode(&self) -> (r: [u8; 29]) {
        let boot: u32 = match self.boot {
            Some(boot) => boot.get(),
            None => 0,
        };
        let mut parts: Vec<u8> = Vec::new();
        push_le(&mut parts, boot as u64, 4);
        let cuts = self.cuts.encode();
        let mut i: usize = 0;
        while i < 25
            invariant
                i <= 25,
                cuts@.len() == 25,
                parts@ == le(boot as nat, 4) + cuts@.take(i as int),
            decreases 25 - i,
        {
            parts.push(cuts[i]);
            proof {
                assert(cuts@.take(i as int + 1) =~= cuts@.take(i as int).push(cuts@[i as int]));
                assert(parts@ =~= le(boot as nat, 4) + cuts@.take(i as int + 1));
            }
            i = i + 1;
        }
        let r = body_of::<29>(parts.as_slice());
        proof {
            assert(cuts@.take(25) =~= cuts@);
            assert(r@ =~= le(boot as nat, 4) + cuts@);
        }
        r
    }

    /// A boot count of zero is none; the cuts decode as [`RecentCuts`] do.
    fn decode(bytes: &[u8; 29]) -> (r: Result<Self, Malformed>) {
        let whole = bytes.as_slice();
        let first = &whole[0..4];
        let rest = &whole[4..29];
        let number: u64 = read_le(first);
        let cuts = body_of::<25>(rest);
        proof {
            assert(first@ =~= bytes@.take(4));
            assert(rest@ =~= bytes@.skip(4));
            assert(cuts@ =~= bytes@.skip(4));
            lemma_from_le_bound(first@);
            lemma_spans();
        }
        match RecentCuts::decode(&cuts) {
            Ok(cuts) => {
                let boot = BootCount::of(number as u32);
                Ok(CutsRecord { boot, cuts })
            },
            Err(m) => Err(Malformed { at: m.at + 4 }),
        }
    }
}

/// A record whose cuts are packed reads back as it was written.
pub proof fn law_a_cuts_record_reads_back(record: CutsModel)
    requires
        record.cuts.1 is Some ==> record.cuts.0 is Some,
        record.cuts.2 is Some ==> record.cuts.1 is Some,
    ensures
        <CutsRecord as Body<29>>::reading(<CutsRecord as Body<29>>::image(record)) == Ok::<
            CutsModel,
            Malformed,
        >(record),
{
    let bytes = <CutsRecord as Body<29>>::image(record);
    assert(bytes.take(4) =~= le(record.boot as nat, 4));
    assert(bytes.skip(4) =~= <RecentCuts as Body<25>>::image(record.cuts));
    law_the_cuts_read_back(record.cuts);
    lemma_spans();
    lemma_le_round_trip(record.boot as nat, 4);
}

/// What the part holds of the ladder's cuts, as far as this boot knows, and so
/// when to write them again.
///
/// A write that failed, or was abandoned late, leaves the part's content
/// unknown: a late write may still land, a count for a cut that was never
/// made. So after one the cuts go out again whatever they are, a retry later.
#[derive(Debug, Clone, Copy, PartialEq, Eq, Structural)]
pub struct CutsOnPart {
    /// What the part is known to hold.
    pub held: Option<RecentCuts>,
    /// When the next write may be tried, after one that did not land.
    pub retry_at: Option<Tick>,
}

impl CutsOnPart {
    /// The part as the boot read it, carried to this boot.
    pub fn read(held: RecentCuts) -> (r: Self)
        ensures
            r == (CutsOnPart { held: Some(held), retry_at: None }),
    {
        CutsOnPart { held: Some(held), retry_at: None }
    }

    /// Whether `cuts` should be written at `now`, in the mathematical sense.
    pub open spec fn spec_due(self, cuts: RecentCuts, now: Tick) -> bool {
        self.held != Some(cuts) && (self.retry_at matches Some(at) ==> now.0 >= at.0)
    }

    /// Whether `cuts` should be written at `now`: they are not what the part
    /// is known to hold, and no retry is still waiting.
    pub fn due(&self, cuts: RecentCuts, now: Tick) -> (r: bool)
        ensures
            r == self.spec_due(cuts, now),
    {
        let other = match self.held {
            Some(held) => held != cuts,
            None => true,
        };
        let waiting = match self.retry_at {
            Some(at) => now.0 < at.0,
            None => false,
        };
        other && !waiting
    }

    /// The write of `cuts` landed.
    pub fn landed(&mut self, cuts: RecentCuts)
        ensures
            *final(self) == (CutsOnPart { held: Some(cuts), retry_at: None }),
    {
        self.held = Some(cuts);
        self.retry_at = None;
    }

    /// What is known after a write at `now` that did not land.
    pub open spec fn spec_unknown(now: Tick) -> Self {
        CutsOnPart {
            held: None,
            retry_at: Some(
                match now.spec_after(Millis(KEEP_RETRY)) {
                    Some(at) => at,
                    None => now,
                },
            ),
        }
    }

    /// The write at `now` failed or was abandoned: what the part holds is not
    /// known, and the cuts go out again [`KEEP_RETRY`] later.
    pub fn unknown(&mut self, now: Tick)
        ensures
            *final(self) == Self::spec_unknown(now),
    {
        self.held = None;
        self.retry_at = Some(
            match now.after(Millis::from_millis(KEEP_RETRY)) {
                Some(at) => at,
                None => now,
            },
        );
    }
}

/// A cut carried to a boot's start is counted for the whole first hour of that
/// boot and for nothing after it.
pub proof fn law_a_carried_cut_counts_for_an_hour(cuts: RecentCuts, now: Tick)
    ensures
        now.0 <= HOUR ==> recent(cuts.spec_rebased().slots(), now).len() == cuts.held(),
        now.0 > HOUR ==> recent(cuts.spec_rebased().slots(), now).len() == 0,
{
    lemma_three(cuts, now);
    lemma_three(cuts.spec_rebased(), now);
}

/// The cuts of the last hour come oldest first, and none is lost: exactly as
/// many come as are recent.
pub proof fn law_the_cuts_come_oldest_first(cuts: RecentCuts, now: Tick)
    ensures
        of_the_hour(cuts, now).held() == recent(cuts.slots(), now).len(),
        of_the_hour(cuts, now) matches RecentCuts(Some(a), Some(b), _) ==> a.0 <= b.0,
        of_the_hour(cuts, now) matches RecentCuts(_, Some(b), Some(c)) ==> b.0 <= c.0,
        ascending(recent(cuts.slots(), now)).to_multiset() =~= recent(
            cuts.slots(),
            now,
        ).to_multiset(),
{
    let s = recent(cuts.slots(), now);
    lemma_three(cuts, now);
    assert(s.len() <= 3);
    lemma_ascending_sorts(s);
    let sorted = ascending(s);
    lemma_three(kept(sorted), now);
}

/// Sorting keeps the instants and puts them in order.
proof fn lemma_ascending_sorts(s: Seq<Tick>)
    ensures
        ascending(s).len() == s.len(),
        ascending(s).to_multiset() =~= s.to_multiset(),
        forall|i: int, j: int|
            0 <= i <= j < s.len() ==> (#[trigger] ascending(s)[i]).0 <= (#[trigger] ascending(
                s,
            )[j]).0,
    decreases s.len(),
{
    broadcast use vstd::seq_lib::group_to_multiset_ensures;

    if s.len() > 0 {
        lemma_ascending_sorts(s.drop_last());
        lemma_placed_sorts(ascending(s.drop_last()), s.last());
        assert(s =~= s.drop_last().push(s.last()));
    }
}

/// Placing an instant keeps the order.
proof fn lemma_placed_sorts(s: Seq<Tick>, at: Tick)
    requires
        forall|i: int, j: int| 0 <= i <= j < s.len() ==> (#[trigger] s[i]).0 <= (#[trigger] s[j]).0,
    ensures
        placed_in(s, at).len() == s.len() + 1,
        placed_in(s, at).to_multiset() =~= s.to_multiset().insert(at),
        forall|i: int, j: int|
            0 <= i <= j < s.len() + 1 ==> (#[trigger] placed_in(s, at)[i]).0 <= (
            #[trigger] placed_in(s, at)[j]).0,
        forall|i: int|
            0 <= i < s.len() + 1 ==> ((#[trigger] placed_in(s, at)[i]).0 <= at.0 || exists|k: int|
                0 <= k < s.len() && s[k] == placed_in(s, at)[i]),
    decreases s.len(),
{
    broadcast use vstd::seq_lib::group_to_multiset_ensures;

    if s.len() != 0 && s.last().0 > at.0 {
        let rest = s.drop_last();
        lemma_placed_sorts(rest, at);
        let r = placed_in(s, at);
        assert(s =~= rest.push(s.last()));
        assert forall|i: int| 0 <= i < s.len() + 1 implies ((#[trigger] r[i]).0 <= at.0 || exists|
            k: int,
        |
            0 <= k < s.len() && s[k] == r[i]) by {
            if i < s.len() {
                assert(r[i] == placed_in(rest, at)[i]);
                if r[i].0 > at.0 {
                    let k = choose|k: int| 0 <= k < rest.len() && rest[k] == r[i];
                    assert(s[k] == r[i]);
                }
            } else {
                assert(s[s.len() - 1] == r[i]);
            }
        }
        assert forall|i: int, j: int| 0 <= i <= j < s.len() + 1 implies (#[trigger] r[i]).0 <= (
        #[trigger] r[j]).0 by {
            if j == s.len() && i < j {
                assert(r[i] == placed_in(rest, at)[i]);
            }
        }
    } else {
        let r = placed_in(s, at);
        assert forall|i: int| 0 <= i < s.len() + 1 implies ((#[trigger] r[i]).0 <= at.0 || exists|
            k: int,
        |
            0 <= k < s.len() && s[k] == r[i]) by {
            if i < s.len() {
                assert(s[i] == r[i]);
            }
        }
    }
}

/// A new cut is never forgotten: with every remembered cut recent, the count
/// grows by one until it is full.
pub proof fn law_a_cut_is_counted(cuts: RecentCuts, now: Tick, n: nat)
    requires
        recent(cuts.slots(), now).len() == cuts.held(),
    ensures
        recent(remembered_times(cuts, now, n).slots(), now).len() == if cuts.held() + n < 3 {
            cuts.held() + n
        } else {
            3
        },
        remembered_times(cuts, now, n).held() == recent(
            remembered_times(cuts, now, n).slots(),
            now,
        ).len(),
    decreases n,
{
    lemma_three(cuts, now);
    if n > 0 {
        law_a_cut_is_counted(cuts, now, (n - 1) as nat);
        let before = remembered_times(cuts, now, (n - 1) as nat);
        let after = remembered(before, now);
        lemma_three(before, now);
        lemma_three(after, now);
        reveal_with_fuel(next_slot, 4);
        assert(before.slots().drop_last() =~= seq![before.0, before.1]);
        assert(before.slots().drop_last().drop_last() =~= seq![before.0]);
    }
}

/// The last three of `s`.
pub open spec fn last_three(s: Seq<Tick>) -> Seq<Tick> {
    if s.len() <= 3 {
        s
    } else {
        s.skip(s.len() - 3)
    }
}

/// `cuts` with a cut at each of `at`, one after another.
pub open spec fn made(cuts: RecentCuts, at: Seq<Tick>) -> RecentCuts
    decreases at.len(),
{
    if at.len() == 0 {
        cuts
    } else {
        remembered(made(cuts, at.drop_last()), at.last())
    }
}

/// Whether instants never go back, and none is before any of `cuts`.
pub open spec fn in_turn(cuts: RecentCuts, at: Seq<Tick>) -> bool {
    &&& forall|i: int, j: int|
        0 <= i <= j < at.len() ==> (#[trigger] at[i]).0 <= (#[trigger] at[j]).0
    &&& forall|i: int, j: int|
        0 <= i < 3 && 0 <= j < at.len() ==> ((#[trigger] cuts.slots()[i]) matches Some(was)
            ==> was.0 <= (#[trigger] at[j]).0)
}

/// The instants of three slots, oldest first.
pub open spec fn in_order(cuts: RecentCuts) -> Seq<Tick> {
    ascending(ticks(cuts.slots()))
}

/// Sorting two or three instants.
proof fn lemma_sorted_few(a: Tick, b: Tick, c: Tick)
    ensures
        ascending(Seq::<Tick>::empty()) == Seq::<Tick>::empty(),
        ascending(Seq::<Tick>::empty().push(a)) == seq![a],
        ascending(Seq::<Tick>::empty().push(a).push(b)) == if a.0 <= b.0 {
            seq![a, b]
        } else {
            seq![b, a]
        },
        ascending(Seq::<Tick>::empty().push(a).push(b).push(c)) == if a.0 <= b.0 {
            if b.0 <= c.0 {
                seq![a, b, c]
            } else if a.0 <= c.0 {
                seq![a, c, b]
            } else {
                seq![c, a, b]
            }
        } else if a.0 <= c.0 {
            seq![b, a, c]
        } else if b.0 <= c.0 {
            seq![b, c, a]
        } else {
            seq![c, b, a]
        },
{
    let none = Seq::<Tick>::empty();
    lemma_ascending_push(none, a);
    lemma_ascending_push(none.push(a), b);
    lemma_ascending_push(none.push(a).push(b), c);
    assert(none.push(a) =~= seq![a]);
    let two = if a.0 <= b.0 {
        seq![a, b]
    } else {
        seq![b, a]
    };
    lemma_placed_is_inserted(
        seq![a],
        b,
        if a.0 <= b.0 {
            1
        } else {
            0
        },
    );
    assert(ascending(none.push(a).push(b)) =~= two);
    let k: int = if two[1].0 <= c.0 {
        2
    } else if two[0].0 <= c.0 {
        1
    } else {
        0
    };
    lemma_placed_is_inserted(two, c, k);
    assert(two.insert(k, c) =~= if a.0 <= b.0 {
        if b.0 <= c.0 {
            seq![a, b, c]
        } else if a.0 <= c.0 {
            seq![a, c, b]
        } else {
            seq![c, a, b]
        }
    } else if a.0 <= c.0 {
        seq![b, a, c]
    } else if b.0 <= c.0 {
        seq![b, c, a]
    } else {
        seq![c, b, a]
    });
}

/// A cut no earlier than the ones kept goes last, and pushes the oldest out of
/// three.
proof fn lemma_one_more_kept(cuts: RecentCuts, now: Tick)
    requires
        forall|i: int|
            0 <= i < 3 ==> ((#[trigger] cuts.slots()[i]) matches Some(was) ==> was.0 <= now.0),
    ensures
        in_order(remembered(cuts, now)) == last_three(in_order(cuts).push(now)),
{
    let after = remembered(cuts, now);
    lemma_three(cuts, now);
    lemma_three(after, now);
    reveal_with_fuel(next_slot, 4);
    assert(cuts.slots().drop_last() =~= seq![cuts.0, cuts.1]);
    assert(cuts.slots().drop_last().drop_last() =~= seq![cuts.0]);
    assert(cuts.slots()[0] == cuts.0 && cuts.slots()[1] == cuts.1 && cuts.slots()[2] == cuts.2);
    let none = Seq::<Tick>::empty();
    let a = cuts.0.unwrap_or(now);
    let b = cuts.1.unwrap_or(now);
    let c = cuts.2.unwrap_or(now);
    lemma_sorted_few(a, b, c);
    lemma_sorted_few(a, b, now);
    lemma_sorted_few(a, now, c);
    lemma_sorted_few(now, b, c);
    lemma_sorted_few(a, c, now);
    lemma_sorted_few(b, c, now);
    lemma_sorted_few(a, now, b);
    lemma_sorted_few(now, b, b);
    lemma_sorted_few(now, c, c);
    lemma_sorted_few(now, a, a);
    lemma_sorted_few(b, now, now);
    lemma_sorted_few(c, now, now);
    lemma_sorted_few(now, now, now);
    assert(in_order(after) =~= last_three(in_order(cuts).push(now)));
}

/// The cuts kept are the latest three: whatever was kept before, after cuts
/// made one after another the slots hold the last three of all of them.
pub proof fn law_the_latest_three_are_kept(cuts: RecentCuts, at: Seq<Tick>)
    requires
        in_turn(cuts, at),
    ensures
        in_order(made(cuts, at)) == last_three(in_order(cuts) + at),
    decreases at.len(),
{
    lemma_three(cuts, Tick(0));
    if at.len() == 0 {
        assert(in_order(cuts) + at =~= in_order(cuts));
        lemma_ascending_sorts(ticks(cuts.slots()));
    } else {
        let front = at.drop_last();
        law_the_latest_three_are_kept(cuts, front);
        let before = made(cuts, front);
        lemma_kept_in_turn(cuts, at, front.len() as int);
        lemma_one_more_kept(before, at.last());
        let all = in_order(cuts) + front;
        assert(all.push(at.last()) =~= in_order(cuts) + at);
        assert(last_three(last_three(all).push(at.last())) =~= last_three(all.push(at.last())));
    }
}

/// A new cut is written over a slot there is.
proof fn lemma_next_slot(slots: Seq<Option<Tick>>)
    requires
        slots.len() > 0,
    ensures
        0 <= next_slot(slots) < slots.len(),
    decreases slots.len(),
{
    if slots.len() > 1 {
        lemma_next_slot(slots.drop_last());
    }
}

/// Every cut kept of the first `n` is no later than those to come.
proof fn lemma_kept_in_turn(cuts: RecentCuts, at: Seq<Tick>, n: int)
    requires
        in_turn(cuts, at),
        0 <= n <= at.len(),
    ensures
        forall|i: int, j: int|
            0 <= i < 3 && n <= j < at.len() ==> ((#[trigger] made(cuts, at.take(n)).slots()[i])
                matches Some(was) ==> was.0 <= (#[trigger] at[j]).0),
        n == at.len() - 1 ==> at.take(n) == at.drop_last(),
    decreases n,
{
    if n == at.len() - 1 {
        assert(at.take(n) =~= at.drop_last());
    }
    if n > 0 {
        lemma_kept_in_turn(cuts, at, n - 1);
        let before = made(cuts, at.take(n - 1));
        let after = made(cuts, at.take(n));
        assert(at.take(n).drop_last() =~= at.take(n - 1));
        assert(at.take(n).last() == at[n - 1]);
        assert(after == remembered(before, at[n - 1]));
        assert forall|i: int, j: int| 0 <= i < 3 && n <= j < at.len() implies ((
        #[trigger] after.slots()[i]) matches Some(was) ==> was.0 <= (#[trigger] at[j]).0) by {
            let was = before.slots();
            lemma_next_slot(was);
            let now = was.update(next_slot(was), Some(at[n - 1]));
            assert(after.slots() =~= seq![now[0], now[1], now[2]]);
            assert(after.slots()[i] == now[i]);
        }
    }
}

/// Of instants none of which is past `bound`, the ones picked are not either.
proof fn lemma_picked_bounded(s: Seq<Tick>, near: spec_fn(Tick) -> bool, bound: u64)
    requires
        forall|i: int| 0 <= i < s.len() ==> (#[trigger] s[i]).0 <= bound,
    ensures
        forall|i: int| 0 <= i < s.filter(near).len() ==> (#[trigger] s.filter(near)[i]).0 <= bound,
    decreases s.len(),
{
    reveal(Seq::filter);
    if s.len() > 0 {
        lemma_picked_bounded(s.drop_last(), near, bound);
        let rest = s.drop_last().filter(near);
        assert(s[s.len() - 1].0 <= bound);
        assert forall|i: int| 0 <= i < s.filter(near).len() implies (#[trigger] s.filter(
            near,
        )[i]).0 <= bound by {
            if i < rest.len() {
                assert(s.filter(near)[i] == rest[i]);
            }
        }
    }
}

/// Picking after placing is placing after picking.
proof fn lemma_placed_picked(s: Seq<Tick>, at: Tick, near: spec_fn(Tick) -> bool)
    requires
        forall|i: int, j: int| 0 <= i <= j < s.len() ==> (#[trigger] s[i]).0 <= (#[trigger] s[j]).0,
    ensures
        placed_in(s, at).filter(near) == if near(at) {
            placed_in(s.filter(near), at)
        } else {
            s.filter(near)
        },
    decreases s.len(),
{
    reveal(Seq::filter);
    if s.len() == 0 || s.last().0 <= at.0 {
        assert(s.push(at).drop_last() =~= s);
        lemma_picked_bounded(s, near, at.0);
    } else {
        let rest = s.drop_last();
        lemma_placed_picked(rest, at, near);
        let r = placed_in(rest, at).push(s.last());
        assert(r.drop_last() =~= placed_in(rest, at));
        let picked = rest.filter(near);
        assert(picked.push(s.last()).drop_last() =~= picked);
    }
}

/// Picking after sorting is sorting after picking.
proof fn lemma_sorted_picked(s: Seq<Tick>, near: spec_fn(Tick) -> bool)
    ensures
        ascending(s).filter(near) == ascending(s.filter(near)),
    decreases s.len(),
{
    reveal(Seq::filter);
    if s.len() > 0 {
        let rest = s.drop_last();
        lemma_sorted_picked(rest, near);
        lemma_ascending_sorts(rest);
        lemma_placed_picked(ascending(rest), s.last(), near);
        if near(s.last()) {
            lemma_ascending_push(rest.filter(near), s.last());
        }
    }
}

/// The cuts of the last hour are those of the latest three that are at most an
/// hour old, oldest first: whatever was kept before, and after any cuts made one
/// after another.
pub proof fn law_the_cuts_of_the_hour_are_among_the_latest_three(
    cuts: RecentCuts,
    at: Seq<Tick>,
    now: Tick,
)
    requires
        in_turn(cuts, at),
    ensures
        of_the_hour(made(cuts, at), now) == kept(
            last_three(in_order(cuts) + at).filter(|c: Tick| is_recent(c, now)),
        ),
{
    law_the_latest_three_are_kept(cuts, at);
    lemma_sorted_picked(ticks(made(cuts, at).slots()), |c: Tick| is_recent(c, now));
}

/// A cut counts from the moment it is made for one hour, its last millisecond
/// with it, and neither before nor after.
pub proof fn law_a_cut_counts_for_one_hour(at: Tick, now: Tick)
    ensures
        recent(seq![Some(at)], now).contains(at) <==> at.0 <= now.0 <= at.0 + 3_600_000,
        recent(seq![None::<Tick>], now).len() == 0,
{
    let empty = Seq::<Option<Tick>>::empty();
    lemma_recent_push(empty, Some(at), now);
    lemma_recent_push(empty, None, now);
    assert(recent(empty, now) =~= Seq::empty()) by {
        assert(ticks(empty) =~= Seq::empty());
        reveal(Seq::filter);
    }
    assert(empty.push(Some(at)) =~= seq![Some(at)]);
    assert(empty.push(None) =~= seq![None::<Tick>]);
    if is_recent(at, now) {
        assert(recent(seq![Some(at)], now)[0] == at);
    }
}

/// A boot carries what an earlier one kept and counts the boots between; of a
/// record that names this boot or a later one it carries the full ladder, and a
/// count lost is never taken as none.
pub proof fn law_a_boot_carries_the_cuts_and_counts_the_boots(
    cuts: RecentCuts,
    kept_at: u32,
    boot: u32,
)
    ensures
        boot > kept_at ==> carried_since(cuts, kept_at, boot).cuts == cuts && kept_at
            + carried_since(cuts, kept_at, boot).missed + 1 == boot,
        boot <= kept_at ==> carried_since(cuts, kept_at, boot).cuts.held() == 3 && carried_since(
            cuts,
            kept_at,
            boot,
        ).cuts.spec_rebased() == carried_since(cuts, kept_at, boot).cuts,
        cuts.spec_rebased().held() == cuts.held(),
{
    lemma_three(CarriedCuts::spec_full().cuts, Tick(0));
    lemma_three(cuts, Tick(0));
    lemma_three(cuts.spec_rebased(), Tick(0));
}

/// Cuts are written until they are known to be on the part: cuts that are held
/// are not due, others are, once no retry waits; and after a write that failed
/// any cuts are due, a second later and no sooner.
pub proof fn law_the_cuts_are_due_until_they_are_held(
    part: CutsOnPart,
    cuts: RecentCuts,
    other: RecentCuts,
    now: Tick,
    later: Tick,
)
    requires
        now.0 + 1_000 <= u64::MAX,
        cuts != other,
    ensures
        !(CutsOnPart { held: Some(cuts), retry_at: part.retry_at }).spec_due(cuts, now),
        (CutsOnPart { held: Some(cuts), retry_at: None }).spec_due(other, now),
        (CutsOnPart { held: None, retry_at: None }).spec_due(cuts, now),
        CutsOnPart::spec_unknown(now).spec_due(cuts, later) <==> later.0 >= now.0 + 1_000,
{
}

/// A body of cuts reads exactly when it says it holds at most three.
pub proof fn law_only_three_cuts_read(bytes: Seq<u8>)
    requires
        bytes.len() == 25,
    ensures
        <RecentCuts as Body<25>>::reading(bytes) is Ok <==> bytes[0] <= 3,
        <RecentCuts as Body<25>>::reading(bytes) matches Ok(cuts) ==> cuts.held() == bytes[0],
        <RecentCuts as Body<25>>::reading(bytes) matches Err(why) ==> why.at == 0,
{
    if bytes[0] <= 3 {
        lemma_three(<RecentCuts as Body<25>>::reading(bytes)->Ok_0, Tick(0));
    }
}

} // verus!
