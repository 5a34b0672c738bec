//! What one tick says of a site: every signal and every device that moved, each
//! as it is and as it was, and nothing of those that did not.

use crate::reading::Id;
use crate::signals::Slot;
use crate::site::{
    merged, owed_next, present_from, presented, sampled, sweep_from, swept, Announced,
    OwedWhat, Presented, Prev, Seen, SiteView, Swept, Tally,
};
use crate::site_laws::{answers, places_past};
use crate::site_rows::TopologyChanged;
use crate::tick::Tick;
use vstd::prelude::*;

verus! {

broadcast use Id::same_number_same_id;

/// Whether a sweep of presences owes a word on a device: it is not the
/// controller itself, and it is not as it was last announced.
pub open spec fn moved(seen: Seen) -> bool {
    seen.dev != 0 && seen.held != seen.announced
}

/// What a sweep of presences says of a device.
pub open spec fn word_on(seen: Seen) -> (u16, u8, u8) {
    (seen.dev, seen.held.spec_number(), seen.before.spec_number())
}

/// What holds of a sweep of presences that has gone over the first `at`
/// devices.
spec fn said_of(before: Seq<Seen>, at: int, so_far: Presented) -> bool {
    &&& so_far.presence.len() == before.len()
    &&& so_far.entries.len() == so_far.prevs.len()
    &&& !so_far.stuck
    &&& forall|p: int|
        0 <= p < before.len() ==> {
            let now = #[trigger] so_far.presence[p];
            &&& now.dev == before[p].dev
            &&& now.held == before[p].held
            &&& now.before == before[p].before
            &&& p >= at ==> now.announced == before[p].announced
            &&& p < at ==> now.announced == if before[p].dev == 0 {
                before[p].announced
            } else {
                before[p].held
            }
        }
    &&& forall|p: int|
        0 <= p < at && moved(#[trigger] before[p]) ==> so_far.entries.contains(word_on(before[p]))
    &&& forall|i: int|
        0 <= i < so_far.entries.len() ==> spoke_of(
            before,
            at,
            #[trigger] so_far.entries[i],
            so_far.prevs[i],
        )
}

/// Whether an entry, and what is kept for putting it back, are of one of the
/// first `at` devices that moved.
pub open spec fn spoke_of(before: Seq<Seen>, at: int, entry: (u16, u8, u8), prev: Prev) -> bool {
    exists|p: int|
        0 <= p < at && p < before.len() && moved(#[trigger] before[p]) && entry == word_on(
            before[p],
        ) && prev.dev == before[p].dev && prev.announced == before[p].announced
}

/// One device after another.
proof fn lemma_said_of(before: Seq<Seen>, at: int, so_far: Presented)
    requires
        0 <= at <= before.len(),
        said_of(before, at, so_far),
        forall|p: int| 0 <= p < at && moved(#[trigger] before[p]) ==> before[p].held
            != before[p].before,
    ensures
        ({
            let went = present_from(at, so_far);
            if went.stuck {
                exists|p: int|
                    0 <= p < before.len() && moved(#[trigger] before[p]) && before[p].held
                        == before[p].before
            } else {
                &&& said_of(before, before.len() as int, went)
                &&& forall|p: int|
                    0 <= p < before.len() && moved(#[trigger] before[p]) ==> before[p].held
                        != before[p].before
            }
        }),
    decreases before.len() - at,
{
    if at < before.len() {
        let seen = so_far.presence[at];
        assert(seen == before[at]);
        if !moved(seen) {
            assert forall|i: int| 0 <= i < so_far.entries.len() implies spoke_of(
                before,
                at + 1,
                #[trigger] so_far.entries[i],
                so_far.prevs[i],
            ) by {
                assert(spoke_of(before, at, so_far.entries[i], so_far.prevs[i]));
            }
            lemma_said_of(before, at + 1, so_far);
        } else if seen.held == seen.before {
            assert(moved(before[at]));
        } else {
            let prev = Prev { dev: seen.dev, announced: seen.announced };
            let next = Presented {
                presence: so_far.presence.update(at, Seen { announced: seen.held, ..seen }),
                entries: so_far.entries.push(word_on(seen)),
                prevs: so_far.prevs.push(prev),
                stuck: false,
            };
            assert forall|p: int| 0 <= p < at + 1 && moved(#[trigger] before[p]) implies
                next.entries.contains(word_on(before[p])) by {
                if p < at {
                    let i = choose|i: int|
                        0 <= i < so_far.entries.len() && so_far.entries[i] == word_on(before[p]);
                    assert(next.entries[i] == word_on(before[p]));
                } else {
                    assert(next.entries[so_far.entries.len() as int] == word_on(before[p]));
                }
            }
            assert forall|i: int| 0 <= i < next.entries.len() implies spoke_of(
                before,
                at + 1,
                #[trigger] next.entries[i],
                next.prevs[i],
            ) by {
                if i < so_far.entries.len() {
                    assert(next.entries[i] == so_far.entries[i]);
                    assert(spoke_of(before, at, so_far.entries[i], so_far.prevs[i]));
                } else {
                    assert(moved(before[at]));
                }
            }
            lemma_said_of(before, at + 1, next);
        }
    } else {
        assert(present_from(at, so_far) == so_far);
    }
}

/// A sweep of presences, from its start.
proof fn lemma_presented(view: SiteView)
    ensures
        ({
            let went = presented(view);
            if went.stuck {
                exists|p: int|
                    0 <= p < view.presence.len() && moved(#[trigger] view.presence[p])
                        && view.presence[p].held == view.presence[p].before
            } else {
                &&& said_of(view.presence, view.presence.len() as int, went)
                &&& forall|p: int|
                    0 <= p < view.presence.len() && moved(#[trigger] view.presence[p])
                        ==> view.presence[p].held != view.presence[p].before
            }
        }),
{
    let first = Presented {
        presence: view.presence,
        entries: Seq::empty(),
        prevs: Seq::empty(),
        stuck: false,
    };
    lemma_said_of(view.presence, 0, first);
}

/// A sweep of presences names every device but the controller itself whose
/// presence is not as it was last announced, with the presence it holds and the
/// one it held before, and after the sweep every such device is announced at
/// what it holds. What is held is not moved by it, and the controller is left
/// as it was.
pub proof fn law_every_presence_that_moved_is_named(view: SiteView, k: int)
    requires
        0 <= k < view.presence.len(),
        !presented(view).stuck,
    ensures
        ({
            let went = presented(view);
            let seen = view.presence[k];
            &&& went.presence.len() == view.presence.len()
            &&& went.presence[k].dev == seen.dev
            &&& went.presence[k].held == seen.held
            &&& went.presence[k].before == seen.before
            &&& seen.dev != 0 ==> went.presence[k].announced == seen.held
            &&& seen.dev == 0 ==> went.presence[k].announced == seen.announced
            &&& seen.dev != 0 && seen.held != seen.announced ==> went.entries.contains(
                (seen.dev, seen.held.spec_number(), seen.before.spec_number()),
            )
        }),
{
    lemma_presented(view);
    let went = presented(view);
    assert(went.presence[k].dev == view.presence[k].dev);
    if moved(view.presence[k]) {
        assert(went.entries.contains(word_on(view.presence[k])));
    }
}

/// A sweep of presences names nothing else: each entry is of a device that
/// moved, and what is kept for putting it back is what that device had been
/// announced at.
pub proof fn law_only_a_presence_that_moved_is_named(view: SiteView, i: int)
    requires
        !presented(view).stuck,
        0 <= i < presented(view).entries.len(),
    ensures
        presented(view).prevs.len() == presented(view).entries.len(),
        exists|p: int|
            {
                let seen = #[trigger] view.presence[p];
                &&& 0 <= p < view.presence.len()
                &&& seen.dev != 0
                &&& seen.held != seen.announced
                &&& presented(view).entries[i] == (
                    seen.dev,
                    seen.held.spec_number(),
                    seen.before.spec_number(),
                )
                &&& presented(view).prevs[i].dev == seen.dev
                &&& presented(view).prevs[i].announced == seen.announced
            },
{
    lemma_presented(view);
    let went = presented(view);
    assert(spoke_of(view.presence, view.presence.len() as int, went.entries[i], went.prevs[i]));
}

/// A sweep of presences stops short exactly where a device that moved would be
/// said to go from what it is to what it is.
pub proof fn law_a_presence_sweep_stops_only_at_a_move_to_itself(view: SiteView)
    ensures
        presented(view).stuck <==> exists|p: int|
            {
                let seen = #[trigger] view.presence[p];
                &&& 0 <= p < view.presence.len()
                &&& seen.dev != 0
                &&& seen.held != seen.announced
                &&& seen.held == seen.before
            },
{
    lemma_presented(view);
    if presented(view).stuck {
        let p = choose|p: int|
            0 <= p < view.presence.len() && moved(#[trigger] view.presence[p])
                && view.presence[p].held == view.presence[p].before;
        assert(view.presence[p].dev != 0);
    }
    if exists|p: int|
        {
            let seen = #[trigger] view.presence[p];
            &&& 0 <= p < view.presence.len()
            &&& seen.dev != 0
            &&& seen.held != seen.announced
            &&& seen.held == seen.before
        } {
        let p = choose|p: int|
            {
                let seen = #[trigger] view.presence[p];
                &&& 0 <= p < view.presence.len()
                &&& seen.dev != 0
                &&& seen.held != seen.announced
                &&& seen.held == seen.before
            };
        assert(moved(view.presence[p]));
    }
}

/// A second sweep of presences right after the first names nobody.
pub proof fn law_a_second_presence_sweep_is_silent(view: SiteView)
    requires
        !presented(view).stuck,
    ensures
        presented(SiteView { presence: presented(view).presence, ..view }).entries.len() == 0,
        !presented(SiteView { presence: presented(view).presence, ..view }).stuck,
{
    let went = presented(view);
    let after = SiteView { presence: went.presence, ..view };
    lemma_presented(view);
    lemma_presented(after);
    assert forall|p: int| 0 <= p < after.presence.len() implies !moved(
        #[trigger] after.presence[p],
    ) by {
        assert(went.presence[p].dev == view.presence[p].dev);
    }
    let again = presented(after);
    if !again.stuck && again.entries.len() > 0 {
        assert(spoke_of(
            after.presence,
            after.presence.len() as int,
            again.entries[0],
            again.prevs[0],
        ));
    }
}

/// What a sweep of validities says of a signal.
pub open spec fn word_on_signal(slots: Seq<Slot>, told: Announced, now: Tick) -> (u16, u8, u8) {
    (told.sig@, sampled(slots, told.sig, now)->Ok_0.q.spec_byte(), told.q.spec_byte())
}

/// Whether a signal is not as it was last announced.
pub open spec fn signal_moved(slots: Seq<Slot>, told: Announced, now: Tick) -> bool {
    sampled(slots, told.sig, now)->Ok_0.q != told.q
}

/// Whether an entry is of a signal that moved and is announced as it is.
pub open spec fn spoke_of_signal(
    slots: Seq<Slot>,
    now: Tick,
    before: Seq<Announced>,
    after: Seq<Announced>,
    entry: (u16, u8, u8),
) -> bool {
    exists|p: int|
        0 <= p < before.len() && signal_moved(slots, #[trigger] before[p], now) && entry
            == word_on_signal(slots, before[p], now) && after[p].q == sampled(
            slots,
            before[p].sig,
            now,
        )->Ok_0.q
}

/// What holds of a sweep of validities that has taken `step` steps.
spec fn said_of_signals(
    slots: Seq<Slot>,
    now: Tick,
    start: int,
    step: int,
    before: Seq<Announced>,
    so_far: Swept,
) -> bool {
    &&& so_far.announced.len() == before.len()
    &&& so_far.failed is None
    &&& forall|p: int|
        0 <= p < before.len() ==> {
            let told = #[trigger] so_far.announced[p];
            &&& told.sig == before[p].sig
            &&& places_past(start, p) >= step ==> told == before[p]
            &&& places_past(start, p) < step ==> told.q == sampled(
                slots,
                before[p].sig,
                now,
            )->Ok_0.q && (signal_moved(slots, before[p], now) ==> so_far.entries.contains(
                word_on_signal(slots, before[p], now),
            ))
        }
    &&& forall|i: int|
        0 <= i < so_far.entries.len() ==> spoke_of_signal(
            slots,
            now,
            before,
            so_far.announced,
            #[trigger] so_far.entries[i],
        )
}

/// One signal after another, round from the cursor.
proof fn lemma_said_of_signals(
    slots: Seq<Slot>,
    now: Tick,
    start: int,
    step: int,
    before: Seq<Announced>,
    so_far: Swept,
) -> (last: int)
    requires
        0 <= start < 64,
        before.len() <= 64,
        0 <= step <= 64,
        answers(slots, before, now),
        said_of_signals(slots, now, start, step, before, so_far),
        so_far.entries.len() <= 19,
    ensures
        0 <= last <= 64,
        ({
            let went = sweep_from(slots, now, start, step, so_far);
            &&& said_of_signals(slots, now, start, last, before, went)
            &&& last < 64 ==> went.entries.len() == 19
            &&& went.entries.len() <= 19
        }),
    decreases 64 - step,
{
    if step >= 64 || so_far.entries.len() >= 19 {
        step
    } else {
        let at = (start + step) % 64;
        assert(at == if start + step < 64 {
            start + step
        } else {
            start + step - 64
        });
        if at >= so_far.announced.len() {
            assert forall|p: int| 0 <= p < before.len() implies places_past(start, p) != step by {}
            lemma_said_of_signals(slots, now, start, step + 1, before, so_far)
        } else {
            let told = so_far.announced[at];
            assert(places_past(start, at) == step);
            assert(told == before[at]);
            assert(sampled(slots, before[at].sig, now) is Ok);
            let sample = sampled(slots, told.sig, now)->Ok_0;
            if sample.q == told.q {
                assert forall|p: int| 0 <= p < before.len() && p != at implies places_past(start, p)
                    != step by {}
                lemma_said_of_signals(slots, now, start, step + 1, before, so_far)
            } else {
                let entry = (told.sig@, sample.q.spec_byte(), told.q.spec_byte());
                let next = Swept {
                    announced: so_far.announced.update(
                        at,
                        Announced { sig: told.sig, q: sample.q },
                    ),
                    cursor: (at + 1) % 64,
                    entries: so_far.entries.push(entry),
                    failed: None,
                };
                assert(signal_moved(slots, before[at], now));
                assert(entry == word_on_signal(slots, before[at], now));
                assert forall|p: int| 0 <= p < before.len() implies {
                    let told = #[trigger] next.announced[p];
                    &&& told.sig == before[p].sig
                    &&& places_past(start, p) >= step + 1 ==> told == before[p]
                    &&& places_past(start, p) < step + 1 ==> told.q == sampled(
                        slots,
                        before[p].sig,
                        now,
                    )->Ok_0.q && (signal_moved(slots, before[p], now) ==> next.entries.contains(
                        word_on_signal(slots, before[p], now),
                    ))
                } by {
                    if p == at {
                        assert(next.entries[so_far.entries.len() as int] == entry);
                    } else {
                        assert(next.announced[p] == so_far.announced[p]);
                        assert(places_past(start, p) != step);
                        if places_past(start, p) < step && signal_moved(slots, before[p], now) {
                            let i = choose|i: int|
                                0 <= i < so_far.entries.len() && so_far.entries[i]
                                    == word_on_signal(slots, before[p], now);
                            assert(next.entries[i] == word_on_signal(slots, before[p], now));
                        }
                    }
                }
                assert forall|i: int| 0 <= i < next.entries.len() implies spoke_of_signal(
                    slots,
                    now,
                    before,
                    next.announced,
                    #[trigger] next.entries[i],
                ) by {
                    if i < so_far.entries.len() {
                        assert(next.entries[i] == so_far.entries[i]);
                        assert(spoke_of_signal(
                            slots,
                            now,
                            before,
                            so_far.announced,
                            so_far.entries[i],
                        ));
                        let p = choose|p: int|
                            0 <= p < before.len() && signal_moved(slots, #[trigger] before[p], now)
                                && so_far.entries[i] == word_on_signal(slots, before[p], now)
                                && so_far.announced[p].q == sampled(
                                slots,
                                before[p].sig,
                                now,
                            )->Ok_0.q;
                        assert(signal_moved(slots, before[p], now));
                        assert(next.announced[p].q == sampled(slots, before[p].sig, now)->Ok_0.q);
                    } else {
                        assert(signal_moved(slots, before[at], now));
                    }
                }
                lemma_said_of_signals(slots, now, start, step + 1, before, next)
            }
        }
    }
}

/// A sweep of validities takes at most nineteen signals; where it takes fewer,
/// it took every signal that moved, and each is then announced as it is. What
/// it takes it names, with the quality it has and the one announced before; and
/// it names nothing else.
pub proof fn law_a_sweep_with_room_takes_every_signal_that_moved(
    view: SiteView,
    now: Tick,
    k: int,
    i: int,
)
    requires
        view.wf(),
        answers(view.slots, view.announced, now),
        0 <= k < view.announced.len(),
    ensures
        ({
            let went = swept(view, now);
            let told = view.announced[k];
            let q = sampled(view.slots, told.sig, now)->Ok_0.q;
            &&& went.failed is None
            &&& went.entries.len() <= 19
            &&& went.entries.len() < 19 ==> went.announced[k].q == q
            &&& went.announced[k].q != told.q ==> went.entries.contains(
                (told.sig@, q.spec_byte(), told.q.spec_byte()),
            )
            &&& 0 <= i < went.entries.len() ==> spoke_of_signal(
                view.slots,
                now,
                view.announced,
                went.announced,
                went.entries[i],
            )
        }),
{
    let first = Swept {
        announced: view.announced,
        cursor: view.cursor,
        entries: Seq::empty(),
        failed: None,
    };
    let last = lemma_said_of_signals(view.slots, now, view.cursor, 0, view.announced, first);
    let went = swept(view, now);
    assert(went.announced[k].sig == view.announced[k].sig);
    if went.announced[k].q != view.announced[k].q {
        assert(places_past(view.cursor, k) < last);
        assert(signal_moved(view.slots, view.announced[k], now));
    }
}

/// A tick speaks in order: a topology change that is owed first, whole and
/// once; then validities; then presences; then concerns, four at most. What it
/// passes over has nothing to say, and it moves nothing that it does not hand
/// out.
pub proof fn law_a_tick_speaks_in_order(view: SiteView, now: Tick, tally: Tally)
    ensures
        ({
            let next = owed_next(view, now, tally);
            &&& next.what is Topology <==> !tally.topology && view.owed is Some
            &&& next.what matches OwedWhat::Topology(changed) ==> view.owed == Some(changed)
                && next.view.owed is None && next.tally.topology && next.view.announced
                == view.announced && next.view.presence == view.presence
            &&& !(next.what is Topology) ==> next.view.owed == view.owed && next.tally.topology
                == tally.topology
            &&& next.what is Validity ==> !tally.validity
            &&& next.what is Presence ==> !tally.presence
            &&& next.what is Concern ==> tally.concerns < 4
            &&& next.what is Nothing ==> tally.concerns >= 4
            &&& next.what is Concern || next.what is Nothing ==> next.tally.validity
                && next.tally.presence
            &&& next.what is Presence || next.what is Stuck ==> next.tally.validity
            &&& next.tally.concerns == tally.concerns
            &&& next.view.slots == view.slots
            &&& next.view.tables == view.tables
        }),
{
}

/// Once a tick has looked over the presences, every device but the controller
/// is announced at what it holds; and where any was not, they are what the tick
/// hands out.
pub proof fn law_a_tick_names_every_presence_that_moved(
    view: SiteView,
    now: Tick,
    tally: Tally,
    k: int,
)
    requires
        0 <= k < view.presence.len(),
        view.presence[k].dev != 0,
    ensures
        ({
            let next = owed_next(view, now, tally);
            let seen = view.presence[k];
            &&& next.view.presence[k].held == seen.held
            &&& !tally.presence && next.tally.presence && !(next.what is Stuck)
                ==> next.view.presence[k].announced == seen.held
            &&& !tally.presence && next.tally.presence && !(next.what is Stuck) && seen.held
                != seen.announced ==> (next.what matches OwedWhat::Presence(entries, prevs)
                && entries.contains(
                (seen.dev, seen.held.spec_number(), seen.before.spec_number()),
            ))
        }),
{
    let mid = SiteView {
        announced: swept(view, now).announced,
        cursor: swept(view, now).cursor,
        ..view
    };
    assert(presented(mid) == presented(view));
    lemma_presented(view);
    let went = presented(view);
    if !went.stuck {
        law_every_presence_that_moved_is_named(view, k);
    } else {
        lemma_held_stays(
            0,
            Presented {
                presence: view.presence,
                entries: Seq::empty(),
                prevs: Seq::empty(),
                stuck: false,
            },
            k,
        );
    }
}

/// A sweep of presences moves nothing that is held, even where it stops.
proof fn lemma_held_stays(at: int, so_far: Presented, k: int)
    requires
        0 <= at,
        0 <= k < so_far.presence.len(),
    ensures
        present_from(at, so_far).presence.len() == so_far.presence.len(),
        present_from(at, so_far).presence[k].held == so_far.presence[k].held,
    decreases so_far.presence.len() - at,
{
    if at < so_far.presence.len() {
        let seen = so_far.presence[at];
        if seen.held == seen.announced || seen.dev == 0 {
            lemma_held_stays(at + 1, so_far, k);
        } else if seen.held != seen.before {
            lemma_held_stays(
                at + 1,
                Presented {
                    presence: so_far.presence.update(at, Seen { announced: seen.held, ..seen }),
                    entries: so_far.entries.push(word_on(seen)),
                    prevs: so_far.prevs.push(
                        Prev { dev: seen.dev, announced: seen.announced },
                    ),
                    stuck: false,
                },
                k,
            );
        }
    }
}

/// Two topology changes said as one are at the newer revision, for the newer
/// reason, and count every row of both, up to the most a count holds.
pub proof fn law_changes_said_as_one_count_both(owed: TopologyChanged, changed: TopologyChanged)
    ensures
        merged(None, changed) == changed,
        merged(Some(owed), changed).rev == changed.rev,
        merged(Some(owed), changed).reason == changed.reason,
        owed.added + changed.added <= 65_535 ==> merged(Some(owed), changed).added == owed.added
            + changed.added,
        owed.added + changed.added > 65_535 ==> merged(Some(owed), changed).added == 65_535,
        owed.removed + changed.removed <= 65_535 ==> merged(Some(owed), changed).removed
            == owed.removed + changed.removed,
        owed.removed + changed.removed > 65_535 ==> merged(Some(owed), changed).removed == 65_535,
{
}

} // verus!
