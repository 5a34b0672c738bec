//! What holds of the reading plane's records as a whole: nothing that changed
//! is dropped, a record that did not land is owed again, and a tick hands out
//! no more than it may.

use crate::reading::{Id, SignalQuality};
use crate::signals::{law_a_sample_answers_from_its_last_write, place, registered, Slot};
use crate::site::{
    device_place, given_back, owed_next, present_from, presented, put_back, sampled, seen_once,
    sweep_from, swept, taken_back, told_honestly, told_once, told_place, Announced, OwedWhat, Presented, Prev, Seen, SiteView, Swept,
    Tally, Token, MAX_CONCERN_EVENTS_PER_TICK, SWEEP_ENTRIES, TICK_RECORDS,
};
use crate::site_rows::TopologyChanged;
use crate::tick::Tick;
use crate::topology::SITE_SIGNALS;
use crate::wire::all_read;
use vstd::prelude::*;

verus! {

broadcast use Id::same_number_same_id;

/// Where an announced signal is found, when each is announced once.
proof fn lemma_told_place(announced: Seq<Announced>, at: int, from: int)
    requires
        told_once(announced),
        0 <= from <= at < announced.len(),
    ensures
        told_place(announced, announced[at].sig@, from) == Some(at),
    decreases at - from,
{
    if from < at {
        assert(announced[from].sig@ != announced[at].sig@);
        lemma_told_place(announced, at, from + 1);
    }
}

/// Where a signal is found depends on the signals alone.
proof fn lemma_told_place_same(a: Seq<Announced>, b: Seq<Announced>, sig: u16, from: int)
    requires
        a.len() == b.len(),
        forall|i: int| 0 <= i < a.len() ==> (#[trigger] a[i]).sig == b[i].sig,
        0 <= from,
    ensures
        told_place(a, sig, from) == told_place(b, sig, from),
        told_place(a, sig, from) matches Some(at) ==> from <= at < a.len() && a[at].sig@ == sig,
    decreases a.len() - from,
{
    if from < a.len() {
        assert(a[from].sig == b[from].sig);
        lemma_told_place_same(a, b, sig, from + 1);
    }
}

/// Taking back entries that do not name a signal leaves that signal alone.
proof fn lemma_taken_back_elsewhere(
    announced: Seq<Announced>,
    entries: Seq<(u16, u8, u8)>,
    at: int,
    q: SignalQuality,
)
    requires
        0 <= at < announced.len(),
        forall|i: int| 0 <= i < entries.len() ==> (#[trigger] entries[i]).0 != announced[at].sig@,
    ensures
        ({
            let changed = announced.update(at, Announced { sig: announced[at].sig, q });
            let back = taken_back(announced, all_read(entries));
            &&& back.len() == announced.len()
            &&& forall|i: int| 0 <= i < back.len() ==> (#[trigger] back[i]).sig == announced[i].sig
            &&& back[at] == announced[at]
            &&& taken_back(changed, all_read(entries)) == back.update(
                at,
                Announced { sig: announced[at].sig, q },
            )
        }),
    decreases entries.len(),
{
    let one = Announced { sig: announced[at].sig, q };
    let changed = announced.update(at, one);
    if entries.len() == 0 {
        assert(all_read(entries) =~= Seq::<Option<(u16, u8, u8)>>::empty());
    } else {
        let front = entries.drop_last();
        assert forall|i: int| 0 <= i < front.len() implies (#[trigger] front[i]).0
            != announced[at].sig@ by {
            assert(entries[i].0 != announced[at].sig@);
        }
        lemma_taken_back_elsewhere(announced, front, at, q);
        assert(all_read(entries).drop_last() =~= all_read(front));
        let (sig, new, prev) = entries.last();
        assert(entries[entries.len() - 1].0 != announced[at].sig@);
        assert(all_read(entries).last() == Some((sig, new, prev)));
        let back = taken_back(announced, all_read(front));
        let other = taken_back(changed, all_read(front));
        lemma_told_place_same(back, other, sig, 0);
        lemma_told_place_same(back, back, sig, 0);
        if let Some(p) = told_place(back, sig, 0) {
            assert(p != at);
            if let Some(old) = SignalQuality::spec_from_byte(prev) {
                let put = Announced { sig: back[p].sig, q: old };
                assert(other[p] == back[p]);
                assert(other.update(p, put) =~= back.update(p, put).update(at, one));
            }
        }
    }
}

/// What a sweep under way keeps: giving its entries back gives what was
/// announced before it, and no entry names a signal still to come.
spec fn gives_back(before: Seq<Announced>, start: int, step: int, so_far: Swept) -> bool {
    &&& so_far.announced.len() == before.len()
    &&& forall|i: int|
        0 <= i < before.len() ==> (#[trigger] so_far.announced[i]).sig == before[i].sig
    &&& taken_back(so_far.announced, all_read(so_far.entries)) == before
    &&& forall|s: int|
        #![trigger (start + s) % (SITE_SIGNALS as int)]
        step <= s < SITE_SIGNALS ==> {
            let p = (start + s) % (SITE_SIGNALS as int);
            p < before.len() ==> so_far.announced[p] == before[p] && forall|i: int|
                0 <= i < so_far.entries.len() ==> (#[trigger] so_far.entries[i]).0
                    != before[p].sig@
        }
}

/// Positions a sweep visits do not repeat.
proof fn lemma_visits_differ(start: int, a: int, b: int)
    requires
        0 <= start,
        0 <= a < b < SITE_SIGNALS,
    ensures
        (start + a) % (SITE_SIGNALS as int) != (start + b) % (SITE_SIGNALS as int),
{
    assert((start + a) % 64 != (start + b) % 64) by (nonlinear_arith)
        requires
            0 <= start,
            0 <= a < b < 64,
    ;
}

/// One step of a sweep after another keeps what [`gives_back`] says.
proof fn lemma_sweep_gives_back(
    before: Seq<Announced>,
    slots: Seq<Slot>,
    now: Tick,
    start: int,
    step: int,
    so_far: Swept,
)
    requires
        told_once(before),
        told_honestly(before),
        0 <= start,
        0 <= step,
        gives_back(before, start, step, so_far),
    ensures
        ({
            let went = sweep_from(slots, now, start, step, so_far);
            taken_back(went.announced, all_read(went.entries)) == before
        }),
    decreases SITE_SIGNALS - step,
{
    if step < SITE_SIGNALS && so_far.entries.len() < SWEEP_ENTRIES {
        let at = (start + step) % (SITE_SIGNALS as int);
        let mut next = so_far;
        if at < so_far.announced.len() {
            let told = so_far.announced[at];
            assert(told == before[at]);
            if let Ok(sample) = sampled(slots, told.sig, now) {
                if sample.q != told.q {
                    let entry = (told.sig@, sample.q.spec_byte(), told.q.spec_byte());
                    next = Swept {
                        announced: so_far.announced.update(
                            at,
                            Announced { sig: told.sig, q: sample.q },
                        ),
                        cursor: (at + 1) % (SITE_SIGNALS as int),
                        entries: so_far.entries.push(entry),
                        failed: None,
                    };
                    lemma_taken_back_elsewhere(
                        so_far.announced,
                        so_far.entries,
                        at,
                        sample.q,
                    );
                    assert(all_read(next.entries).drop_last() =~= all_read(so_far.entries));
                    let mid = taken_back(next.announced, all_read(so_far.entries));
                    assert(mid == before.update(at, Announced { sig: told.sig, q: sample.q }));
                    assert(told_once(mid));
                    lemma_told_place(mid, at, 0);
                    SignalQuality::law_a_byte_reads_back(told.q);
                    assert(all_read(next.entries).last() == Some(entry));
                    assert(taken_back(next.announced, all_read(next.entries)) =~= before);
                    assert forall|s: int|
                        #![trigger (start + s) % (SITE_SIGNALS as int)]
                        step + 1 <= s < SITE_SIGNALS implies {
                        let p = (start + s) % (SITE_SIGNALS as int);
                        p < before.len() ==> next.announced[p] == before[p] && forall|i: int|
                            0 <= i < next.entries.len() ==> (#[trigger] next.entries[i]).0
                                != before[p].sig@
                    } by {
                        let p = (start + s) % (SITE_SIGNALS as int);
                        lemma_visits_differ(start, step, s);
                        if p < before.len() {
                            assert(p != at);
                            if p < at {
                                assert(before[p].sig@ != before[at].sig@);
                            } else {
                                assert(before[at].sig@ != before[p].sig@);
                            }
                            assert forall|i: int| 0 <= i < next.entries.len() implies (
                            #[trigger] next.entries[i]).0 != before[p].sig@ by {
                                if i < so_far.entries.len() {
                                    assert(so_far.entries[i].0 != before[p].sig@);
                                }
                            }
                        }
                    }
                }
                lemma_sweep_gives_back(before, slots, now, start, step + 1, next);
            }
        } else {
            lemma_sweep_gives_back(before, slots, now, start, step + 1, so_far);
        }
    }
}

/// A sweep of validities that does not land is owed again: giving its entries
/// back leaves exactly what was announced before it.
pub proof fn law_a_sweep_given_back_is_owed_again(view: SiteView, now: Tick)
    requires
        view.wf(),
    ensures
        ({
            let went = swept(view, now);
            taken_back(went.announced, all_read(went.entries)) == view.announced
        }),
{
    let first = Swept {
        announced: view.announced,
        cursor: view.cursor,
        entries: Seq::empty(),
        failed: None,
    };
    assert(all_read(first.entries) =~= Seq::<Option<(u16, u8, u8)>>::empty());
    lemma_sweep_gives_back(view.announced, view.slots, now, view.cursor, 0, first);
}

/// Nothing is dropped: after a sweep, each signal is announced either as it
/// was, or as it is now; so one that changed and was not taken still differs
/// from what was announced, and the next tick finds it.
pub proof fn law_nothing_that_changed_is_dropped(view: SiteView, now: Tick, k: int)
    requires
        0 <= k < view.announced.len(),
    ensures
        ({
            let went = swept(view, now);
            &&& went.announced.len() == view.announced.len()
            &&& went.announced[k].sig == view.announced[k].sig
            &&& went.announced[k] == view.announced[k] || (sampled(
                view.slots,
                view.announced[k].sig,
                now,
            ) matches Ok(sample) && went.announced[k].q == sample.q)
        }),
{
    lemma_sweep_tells(
        view.slots,
        now,
        view.cursor,
        0,
        Swept {
            announced: view.announced,
            cursor: view.cursor,
            entries: Seq::empty(),
            failed: None,
        },
        view.announced,
        k,
    );
}

/// A sweep announces of a signal only what it is.
proof fn lemma_sweep_tells(
    slots: Seq<Slot>,
    now: Tick,
    start: int,
    step: int,
    so_far: Swept,
    before: Seq<Announced>,
    k: int,
)
    requires
        so_far.announced.len() == before.len(),
        0 <= k < before.len(),
        so_far.announced[k].sig == before[k].sig,
        so_far.announced[k] == before[k] || (sampled(slots, before[k].sig, now) matches Ok(sample)
            && so_far.announced[k].q == sample.q),
    ensures
        ({
            let went = sweep_from(slots, now, start, step, so_far);
            &&& went.announced.len() == before.len()
            &&& went.announced[k].sig == before[k].sig
            &&& went.announced[k] == before[k] || (sampled(slots, before[k].sig, now) matches Ok(
                sample,
            ) && went.announced[k].q == sample.q)
        }),
    decreases SITE_SIGNALS - step,
{
    if 0 <= step < SITE_SIGNALS && so_far.entries.len() < SWEEP_ENTRIES {
        let at = (start + step) % (SITE_SIGNALS as int);
        if at >= so_far.announced.len() {
            lemma_sweep_tells(slots, now, start, step + 1, so_far, before, k);
        } else {
            let told = so_far.announced[at];
            if let Ok(sample) = sampled(slots, told.sig, now) {
                if sample.q == told.q {
                    lemma_sweep_tells(slots, now, start, step + 1, so_far, before, k);
                } else {
                    lemma_sweep_tells(
                        slots,
                        now,
                        start,
                        step + 1,
                        Swept {
                            announced: so_far.announced.update(
                                at,
                                Announced { sig: told.sig, q: sample.q },
                            ),
                            cursor: (at + 1) % (SITE_SIGNALS as int),
                            entries: so_far.entries.push(
                                (told.sig@, sample.q.spec_byte(), told.q.spec_byte()),
                            ),
                            failed: None,
                        },
                        before,
                        k,
                    );
                }
            }
        }
    }
}

/// A topology change that does not land is owed again, with whatever was owed
/// since: once it was handed out and given back, the next one handed out has the
/// rows of both, and the newest revision and reason.
pub proof fn law_a_topology_change_given_back_is_owed_again(
    view: SiteView,
    now: Tick,
    tally: Tally,
    since: Option<TopologyChanged>,
)
    requires
        view.owed is Some,
        !tally.topology,
    ensures
        ({
            let handed = owed_next(view, now, tally);
            let changed = view.owed->0;
            let later = SiteView { owed: since, ..handed.view };
            let back = given_back(later, Token::Topology(changed), None);
            &&& handed.what == OwedWhat::Topology(changed)
            &&& handed.view.owed is None
            &&& match since {
                None => back.owed == Some(changed),
                Some(newer) => back.owed matches Some(owed) && {
                    &&& owed.rev == newer.rev
                    &&& owed.reason == newer.reason
                    &&& changed.added + newer.added <= u16::MAX ==> owed.added == changed.added
                        + newer.added
                    &&& changed.removed + newer.removed <= u16::MAX ==> owed.removed
                        == changed.removed + newer.removed
                },
            }
        }),
{
}

/// A device is found at a place that holds it, and is not found only where none
/// does.
pub proof fn lemma_a_device_has_one_place(presence: Seq<Seen>, dev: u16, at: int)
    requires
        0 <= at,
    ensures
        device_place(presence, dev, at) matches Some(p) ==> at <= p < presence.len()
            && presence[p].dev == dev,
        device_place(presence, dev, at) is None ==> forall|i: int|
            at <= i < presence.len() ==> (#[trigger] presence[i]).dev != dev,
    decreases presence.len() - at,
{
    if at < presence.len() && presence[at].dev != dev {
        lemma_a_device_has_one_place(presence, dev, at + 1);
    }
}

/// Where a device is found, when each is held once.
pub proof fn lemma_device_place(presence: Seq<Seen>, at: int, from: int)
    requires
        seen_once(presence),
        0 <= from <= at < presence.len(),
    ensures
        device_place(presence, presence[at].dev, from) == Some(at),
    decreases at - from,
{
    if from < at {
        assert(presence[from].dev != presence[at].dev);
        lemma_device_place(presence, at, from + 1);
    }
}

/// Where a device is found depends on the devices alone.
proof fn lemma_device_place_same(a: Seq<Seen>, b: Seq<Seen>, dev: u16, from: int)
    requires
        a.len() == b.len(),
        forall|i: int| 0 <= i < a.len() ==> (#[trigger] a[i]).dev == b[i].dev,
        0 <= from,
    ensures
        device_place(a, dev, from) == device_place(b, dev, from),
        device_place(a, dev, from) matches Some(at) ==> from <= at < a.len() && a[at].dev == dev,
    decreases a.len() - from,
{
    if from < a.len() {
        assert(a[from].dev == b[from].dev);
        lemma_device_place_same(a, b, dev, from + 1);
    }
}

/// Putting back devices that are not this one leaves this one alone.
proof fn lemma_put_back_elsewhere(presence: Seq<Seen>, prevs: Seq<Prev>, at: int, to: Seen)
    requires
        0 <= at < presence.len(),
        to.dev == presence[at].dev,
        forall|i: int| 0 <= i < prevs.len() ==> (#[trigger] prevs[i]).dev != presence[at].dev,
    ensures
        ({
            let back = put_back(presence, prevs);
            &&& back.len() == presence.len()
            &&& forall|i: int| 0 <= i < back.len() ==> (#[trigger] back[i]).dev == presence[i].dev
            &&& back[at] == presence[at]
            &&& put_back(presence.update(at, to), prevs) == back.update(at, to)
        }),
    decreases prevs.len(),
{
    if prevs.len() > 0 {
        let front = prevs.drop_last();
        assert forall|i: int| 0 <= i < front.len() implies (#[trigger] front[i]).dev
            != presence[at].dev by {
            assert(prevs[i].dev != presence[at].dev);
        }
        lemma_put_back_elsewhere(presence, front, at, to);
        let back = put_back(presence, front);
        let other = put_back(presence.update(at, to), front);
        let last = prevs.last();
        assert(prevs[prevs.len() - 1].dev != presence[at].dev);
        lemma_device_place_same(back, other, last.dev, 0);
        if let Some(p) = device_place(back, last.dev, 0) {
            assert(p != at);
            let put = Seen { announced: last.announced, ..back[p] };
            assert(other[p] == back[p]);
            assert(other.update(p, put) =~= back.update(p, put).update(at, to));
        }
    }
}

/// What a sweep of presences under way keeps: putting its devices back gives
/// what was held before it, and it named no device still to come.
spec fn puts_back(before: Seq<Seen>, at: int, so_far: Presented) -> bool {
    &&& so_far.presence.len() == before.len()
    &&& put_back(so_far.presence, so_far.prevs) == before
    &&& forall|p: int|
        at <= p < before.len() ==> (#[trigger] so_far.presence[p]) == before[p] && forall|i: int|
            0 <= i < so_far.prevs.len() ==> (#[trigger] so_far.prevs[i]).dev != before[p].dev
}

/// One step of a sweep of presences after another keeps what [`puts_back`]
/// says.
proof fn lemma_presented_puts_back(before: Seq<Seen>, at: int, so_far: Presented)
    requires
        seen_once(before),
        0 <= at,
        puts_back(before, at, so_far),
    ensures
        ({
            let went = present_from(at, so_far);
            put_back(went.presence, went.prevs) == before
        }),
    decreases before.len() - at,
{
    if at < before.len() {
        let seen = so_far.presence[at];
        assert(seen == before[at]);
        if seen.held == seen.announced || seen.dev == 0 {
            lemma_presented_puts_back(before, at + 1, so_far);
        } else if seen.held != seen.before {
            let to = Seen { announced: seen.held, ..seen };
            let prev = Prev { dev: seen.dev, announced: seen.announced };
            let next = Presented {
                presence: so_far.presence.update(at, to),
                entries: so_far.entries.push(
                    (seen.dev, seen.held.spec_number(), seen.before.spec_number()),
                ),
                prevs: so_far.prevs.push(prev),
                stuck: false,
            };
            lemma_put_back_elsewhere(so_far.presence, so_far.prevs, at, to);
            assert(next.prevs.drop_last() =~= so_far.prevs);
            let mid = before.update(at, to);
            assert(put_back(next.presence, so_far.prevs) == mid);
            assert forall|i: int, j: int| 0 <= i < j < mid.len() implies (#[trigger] mid[i]).dev
                != (#[trigger] mid[j]).dev by {
                assert(before[i].dev != before[j].dev);
            }
            lemma_device_place(mid, at, 0);
            assert(put_back(next.presence, next.prevs) =~= before);
            assert forall|p: int| at + 1 <= p < before.len() implies (
            #[trigger] next.presence[p]) == before[p] && forall|i: int|
                0 <= i < next.prevs.len() ==> (#[trigger] next.prevs[i]).dev != before[p].dev by {
                assert(so_far.presence[p] == before[p]);
                assert(before[at].dev != before[p].dev);
                assert forall|i: int| 0 <= i < next.prevs.len() implies (
                #[trigger] next.prevs[i]).dev != before[p].dev by {
                    if i < so_far.prevs.len() {
                        assert(so_far.prevs[i].dev != before[p].dev);
                    }
                }
            }
            lemma_presented_puts_back(before, at + 1, next);
        }
    }
}

/// A sweep of presences that does not land is owed again: putting its devices
/// back leaves exactly what was held and announced before it.
pub proof fn law_a_presence_sweep_given_back_is_owed_again(view: SiteView)
    requires
        view.wf(),
    ensures
        put_back(presented(view).presence, presented(view).prevs) == view.presence,
{
    lemma_presented_puts_back(
        view.presence,
        0,
        Presented {
            presence: view.presence,
            entries: Seq::empty(),
            prevs: Seq::empty(),
            stuck: false,
        },
    );
}

/// Whether the store answers for every announced signal at `now`.
pub open spec fn answers(slots: Seq<Slot>, announced: Seq<Announced>, now: Tick) -> bool {
    forall|i: int| 0 <= i < announced.len() ==> sampled(slots, (#[trigger] announced[i]).sig, now)
        is Ok
}

/// A site answers for every signal it announces at every tick that is not before
/// the last write to any of them.
pub proof fn law_a_site_answers_from_its_last_writes(view: SiteView, now: Tick)
    requires
        view.wf(),
        forall|i: int|
            0 <= i < view.slots.len() ==> ((#[trigger] view.slots[i]).held matches Some(held)
                ==> held.written.0 <= now.0),
    ensures
        answers(view.slots, view.announced, now),
{
    assert forall|i: int| 0 <= i < view.announced.len() implies sampled(
        view.slots,
        (#[trigger] view.announced[i]).sig,
        now,
    ) is Ok by {
        let sig = view.announced[i].sig;
        assert(registered(view.slots, sig));
        law_a_sample_answers_from_its_last_write(view.slots, place(view.slots, sig), now);
    }
}

/// How many places a signal is past the one a sweep starts at.
pub open spec fn places_past(start: int, k: int) -> int {
    if k >= start {
        k - start
    } else {
        k - start + SITE_SIGNALS
    }
}

/// What a sweep that has taken `step` steps keeps while signal `k` is still to
/// come.
spec fn still_to_come(before: Seq<Announced>, start: int, step: int, so_far: Swept, k: int) -> bool {
    &&& so_far.announced.len() == before.len()
    &&& forall|i: int|
        0 <= i < before.len() ==> (#[trigger] so_far.announced[i]).sig == before[i].sig
    &&& so_far.announced[k] == before[k]
    &&& so_far.failed is None
    &&& so_far.entries.len() <= step
    &&& so_far.entries.len() > 0 ==> exists|c: int|
        #![trigger ended_at(start, c)]
        so_far.entries.len() <= c <= step && so_far.cursor == ended_at(start, c)
}

/// Where a sweep that started at `start` ended after `c` steps.
spec fn ended_at(start: int, c: int) -> int {
    (start + c) % (SITE_SIGNALS as int)
}

/// Steps from a place, round past the last.
proof fn lemma_ended_at(start: int, c: int)
    requires
        0 <= start < SITE_SIGNALS,
        0 <= c <= SITE_SIGNALS,
    ensures
        ended_at(start, c) == if start + c < SITE_SIGNALS {
            start + c
        } else {
            start + c - SITE_SIGNALS
        },
{
    assert((start + c) % 64 == if start + c < 64 {
        start + c
    } else {
        start + c - 64
    });
}

/// A sweep keeps the entries it took.
proof fn lemma_sweep_keeps(
    slots: Seq<Slot>,
    now: Tick,
    start: int,
    step: int,
    so_far: Swept,
    entry: (u16, u8, u8),
)
    requires
        so_far.entries.contains(entry),
    ensures
        sweep_from(slots, now, start, step, so_far).entries.contains(entry),
    decreases SITE_SIGNALS - step,
{
    if 0 <= step < SITE_SIGNALS && so_far.entries.len() < SWEEP_ENTRIES {
        let at = (start + step) % (SITE_SIGNALS as int);
        if at >= so_far.announced.len() {
            lemma_sweep_keeps(slots, now, start, step + 1, so_far, entry);
        } else {
            let told = so_far.announced[at];
            if let Ok(sample) = sampled(slots, told.sig, now) {
                if sample.q == told.q {
                    lemma_sweep_keeps(slots, now, start, step + 1, so_far, entry);
                } else {
                    let one = (told.sig@, sample.q.spec_byte(), told.q.spec_byte());
                    let next = Swept {
                        announced: so_far.announced.update(
                            at,
                            Announced { sig: told.sig, q: sample.q },
                        ),
                        cursor: (at + 1) % (SITE_SIGNALS as int),
                        entries: so_far.entries.push(one),
                        failed: None,
                    };
                    let i = choose|i: int|
                        0 <= i < so_far.entries.len() && so_far.entries[i] == entry;
                    assert(next.entries[i] == entry);
                    lemma_sweep_keeps(slots, now, start, step + 1, next, entry);
                }
            }
        }
    }
}

/// A sweep reaches a signal that differs, or is full before it.
proof fn lemma_sweep_reaches(
    slots: Seq<Slot>,
    now: Tick,
    start: int,
    step: int,
    so_far: Swept,
    before: Seq<Announced>,
    k: int,
)
    requires
        0 <= start < SITE_SIGNALS,
        0 <= k < before.len() <= SITE_SIGNALS,
        0 <= step <= places_past(start, k),
        answers(slots, before, now),
        sampled(slots, before[k].sig, now)->Ok_0.q != before[k].q,
        still_to_come(before, start, step, so_far, k),
        so_far.entries.len() <= SWEEP_ENTRIES,
    ensures
        ({
            let went = sweep_from(slots, now, start, step, so_far);
            let q = sampled(slots, before[k].sig, now)->Ok_0.q;
            ||| went.entries.contains((before[k].sig@, q.spec_byte(), before[k].q.spec_byte()))
            ||| went.announced.len() == before.len() && went.announced[k] == before[k]
                && went.failed is None && 0 <= went.cursor < SITE_SIGNALS && places_past(
                went.cursor,
                k,
            ) + SWEEP_ENTRIES <= places_past(start, k) && (forall|i: int|
                0 <= i < before.len() ==> (#[trigger] went.announced[i]).sig == before[i].sig)
        }),
    decreases SITE_SIGNALS - step,
{
    let at = (start + step) % (SITE_SIGNALS as int);
    assert(at == ended_at(start, step));
    lemma_ended_at(start, step);
    lemma_ended_at(start, step + 1);
    if so_far.entries.len() >= SWEEP_ENTRIES {
        let c = choose|c: int|
            #![trigger ended_at(start, c)]
            so_far.entries.len() <= c <= step && so_far.cursor == ended_at(start, c);
        lemma_ended_at(start, c);
    } else if at >= so_far.announced.len() {
        assert(at != k);
        assert(step < places_past(start, k));
        lemma_sweep_reaches(slots, now, start, step + 1, so_far, before, k);
    } else {
        let told = so_far.announced[at];
        assert(told.sig == before[at].sig);
        assert(sampled(slots, before[at].sig, now) is Ok);
        let sample = sampled(slots, told.sig, now)->Ok_0;
        let entry = (told.sig@, sample.q.spec_byte(), told.q.spec_byte());
        let next = Swept {
            announced: so_far.announced.update(at, Announced { sig: told.sig, q: sample.q }),
            cursor: (at + 1) % (SITE_SIGNALS as int),
            entries: so_far.entries.push(entry),
            failed: None,
        };
        if step == places_past(start, k) {
            assert(at == k);
            assert(next.entries.last() == entry);
            assert(next.entries.contains(entry));
            lemma_sweep_keeps(slots, now, start, step + 1, next, entry);
        } else {
            assert(at != k);
            if sample.q == told.q {
                lemma_sweep_reaches(slots, now, start, step + 1, so_far, before, k);
            } else {
                assert(next.cursor == ended_at(at, 1));
                lemma_ended_at(at, 1);
                assert(next.cursor == ended_at(start, step + 1));
                lemma_sweep_reaches(slots, now, start, step + 1, next, before, k);
            }
        }
    }
}

/// The site after one sweep of validities for each tick, the store as it is at
/// each.
pub open spec fn after_sweeps(view: SiteView, ticks: Seq<(Seq<Slot>, Tick)>) -> SiteView
    decreases ticks.len(),
{
    if ticks.len() == 0 {
        view
    } else {
        let before = after_sweeps(view, ticks.drop_last());
        let went = swept(SiteView { slots: ticks.last().0, ..before }, ticks.last().1);
        SiteView {
            slots: ticks.last().0,
            announced: went.announced,
            cursor: went.cursor,
            ..before
        }
    }
}

/// Whether the sweep of the `i`-th tick hands out signal `k`, as a move from
/// what was announced of it.
pub open spec fn handed_at(view: SiteView, ticks: Seq<(Seq<Slot>, Tick)>, k: int, i: int) -> bool {
    let before = after_sweeps(view, ticks.take(i));
    let (slots, now) = ticks[i];
    swept(SiteView { slots, ..before }, now).entries.contains(
        (
            view.announced[k].sig@,
            sampled(slots, view.announced[k].sig, now)->Ok_0.q.spec_byte(),
            view.announced[k].q.spec_byte(),
        ),
    )
}

/// A signal left out of a sweep comes up in a later one: one that differs from
/// what was announced of it at each of four ticks is handed out by one of them,
/// however many others change too.
pub proof fn law_a_signal_left_out_is_handed_out_later(
    view: SiteView,
    ticks: Seq<(Seq<Slot>, Tick)>,
    k: int,
)
    requires
        view.wf(),
        0 <= k < view.announced.len(),
        ticks.len() == 4,
        forall|i: int|
            0 <= i < 4 ==> answers((#[trigger] ticks[i]).0, view.announced, ticks[i].1) && sampled(
                ticks[i].0,
                view.announced[k].sig,
                ticks[i].1,
            )->Ok_0.q != view.announced[k].q,
    ensures
        exists|i: int| 0 <= i < 4 && #[trigger] handed_at(view, ticks, k, i),
{
    lemma_left_out(view, ticks, k, 4);
}

/// While none of the first `n` ticks handed a signal out, sweeps come closer to
/// it.
proof fn lemma_left_out(view: SiteView, ticks: Seq<(Seq<Slot>, Tick)>, k: int, n: int)
    requires
        view.announced.len() <= SITE_SIGNALS,
        0 <= view.cursor < SITE_SIGNALS,
        0 <= k < view.announced.len(),
        0 <= n <= ticks.len(),
        forall|i: int|
            0 <= i < n ==> answers((#[trigger] ticks[i]).0, view.announced, ticks[i].1) && sampled(
                ticks[i].0,
                view.announced[k].sig,
                ticks[i].1,
            )->Ok_0.q != view.announced[k].q,
    ensures
        ({
            let left = after_sweeps(view, ticks.take(n));
            ||| exists|i: int| 0 <= i < n && #[trigger] handed_at(view, ticks, k, i)
            ||| left.announced.len() == view.announced.len() && left.announced[k]
                == view.announced[k] && 0 <= left.cursor < SITE_SIGNALS && places_past(
                left.cursor,
                k,
            ) + n * SWEEP_ENTRIES <= places_past(view.cursor, k) && (forall|i: int|
                0 <= i < view.announced.len() ==> (#[trigger] left.announced[i]).sig
                    == view.announced[i].sig)
        }),
    decreases n,
{
    if n > 0 {
        lemma_left_out(view, ticks, k, n - 1);
        if !(exists|i: int| 0 <= i < n - 1 && #[trigger] handed_at(view, ticks, k, i)) {
            let before = after_sweeps(view, ticks.take(n - 1));
            let (slots, now) = ticks[n - 1];
            assert(ticks.take(n).drop_last() =~= ticks.take(n - 1));
            assert(ticks.take(n).last() == ticks[n - 1]);
            assert(answers(slots, view.announced, now));
            assert forall|i: int| 0 <= i < before.announced.len() implies sampled(
                slots,
                (#[trigger] before.announced[i]).sig,
                now,
            ) is Ok by {
                assert(before.announced[i].sig == view.announced[i].sig);
                assert(sampled(slots, view.announced[i].sig, now) is Ok);
            }
            lemma_sweep_reaches(
                slots,
                now,
                before.cursor,
                0,
                Swept {
                    announced: before.announced,
                    cursor: before.cursor,
                    entries: Seq::empty(),
                    failed: None,
                },
                before.announced,
                k,
            );
            assert((n - 1) * SWEEP_ENTRIES + SWEEP_ENTRIES == n * SWEEP_ENTRIES)
                by (nonlinear_arith);
            if !handed_at(view, ticks, k, n - 1) {
                assert(places_past(after_sweeps(view, ticks.take(n)).cursor, k) + n * SWEEP_ENTRIES
                    <= places_past(view.cursor, k));
            }
        } else {
            let i = choose|i: int| 0 <= i < n - 1 && #[trigger] handed_at(view, ticks, k, i);
            assert(handed_at(view, ticks, k, i));
        }
    }
}

/// The records a tick may still hand out.
pub open spec fn left_to_hand(tally: Tally) -> int {
    (if tally.topology {
        0int
    } else {
        1
    }) + (if tally.validity {
        0int
    } else {
        1
    }) + (if tally.presence {
        0int
    } else {
        1
    }) + (if tally.concerns < MAX_CONCERN_EVENTS_PER_TICK {
        MAX_CONCERN_EVENTS_PER_TICK - tally.concerns
    } else {
        0
    })
}

/// A tick hands out at most its cap: it starts with room for that many, and
/// every record it hands out leaves room for one fewer; a concern is asked
/// for only while there is room for one.
pub proof fn law_a_tick_hands_out_no_more_than_it_may(view: SiteView, now: Tick, tally: Tally)
    ensures
        left_to_hand(Tally { validity: false, presence: false, topology: false, concerns: 0 })
            == TICK_RECORDS,
        left_to_hand(owed_next(view, now, tally).tally) <= left_to_hand(tally),
        match owed_next(view, now, tally).what {
            OwedWhat::Topology(_) => left_to_hand(owed_next(view, now, tally).tally)
                < left_to_hand(tally),
            OwedWhat::Validity(_) => left_to_hand(owed_next(view, now, tally).tally)
                < left_to_hand(tally),
            OwedWhat::Presence(_, _) => left_to_hand(owed_next(view, now, tally).tally)
                < left_to_hand(tally),
            OwedWhat::Concern => tally.concerns < MAX_CONCERN_EVENTS_PER_TICK,
            _ => true,
        },
{
}

/// What a tick has handed out of each kind, and its tally.
pub struct Handed {
    /// The tally.
    pub tally: Tally,
    /// Topology changes.
    pub topology: nat,
    /// Sweeps of validities.
    pub validity: nat,
    /// Sweeps of presences.
    pub presence: nat,
    /// Concern records.
    pub concerns: nat,
}

/// What a tick has handed out after each of its calls: the site as each call
/// finds it, when, and whether the concern table had a record when it was
/// asked.
pub open spec fn handed(calls: Seq<(SiteView, Tick, bool)>) -> Handed
    decreases calls.len(),
{
    if calls.len() == 0 {
        Handed {
            tally: Tally { validity: false, presence: false, topology: false, concerns: 0 },
            topology: 0,
            validity: 0,
            presence: 0,
            concerns: 0,
        }
    } else {
        let before = handed(calls.drop_last());
        let (view, now, had) = calls.last();
        let next = owed_next(view, now, before.tally);
        let so_far = Handed { tally: next.tally, ..before };
        match next.what {
            OwedWhat::Topology(_) => Handed { topology: before.topology + 1, ..so_far },
            OwedWhat::Validity(_) => Handed { validity: before.validity + 1, ..so_far },
            OwedWhat::Presence(_, _) => Handed { presence: before.presence + 1, ..so_far },
            OwedWhat::Concern => if had {
                Handed {
                    tally: Tally { concerns: (next.tally.concerns + 1) as usize, ..next.tally },
                    concerns: before.concerns + 1,
                    ..so_far
                }
            } else {
                so_far
            },
            _ => so_far,
        }
    }
}

/// One tick hands out at most one topology change, one sweep of each kind and
/// four concern records, however often it is asked and whatever moves between.
pub proof fn law_a_tick_hands_out_each_kind_within_its_cap(calls: Seq<(SiteView, Tick, bool)>)
    ensures
        ({
            let all = handed(calls);
            &&& all.topology <= 1
            &&& all.validity <= 1
            &&& all.presence <= 1
            &&& all.concerns <= MAX_CONCERN_EVENTS_PER_TICK
            &&& all.topology + all.validity + all.presence + all.concerns <= TICK_RECORDS
            &&& !all.tally.topology ==> all.topology == 0
            &&& !all.tally.validity ==> all.validity == 0
            &&& !all.tally.presence ==> all.presence == 0
            &&& all.tally.concerns == all.concerns
        }),
    decreases calls.len(),
{
    if calls.len() > 0 {
        law_a_tick_hands_out_each_kind_within_its_cap(calls.drop_last());
    }
}

} // verus!
