//! What holds of the module rail whatever is asked of it.

use vstd::prelude::*;

use crate::cuts::{
    in_order, in_turn, is_recent, kept, last_three, law_a_cut_is_counted,
    law_the_cuts_of_the_hour_are_among_the_latest_three, lemma_three, made, next_slot, of_the_hour,
    recent, remembered, remembered_times, CarriedCuts, CutsOnPart, RecentCuts, HOUR,
};
use crate::rail::{
    making, BootLine, EnLine, ModuleBoot, ModuleReset, PlanModel, PlannedModel,
    RailEvent, RailLine, RailModel, Recovery, CUT,
};
use crate::rail_turn::{Keep, KeepAnswer, NotKept, RailRequest, RailTask};
use crate::revision::{RailThroughReset, Revision};
use crate::tick::{Millis, Tick};

verus! {

/// Once the rail has been powered, `EN` is low whenever the rail is off or has
/// not settled, and is only ever released with the rail on.
pub proof fn law_en_is_low_until_the_rail_has_settled(rail: RailModel)
    requires
        rail.phase !is Off,
    ensures
        rail.lines().rail == RailLine::Off || !rail.settled() ==> rail.lines().en == EnLine::HeldLow,
        rail.lines().en == EnLine::Released ==> rail.lines().rail == RailLine::On
            && rail.settled(),
{
}

/// A powered rail never goes back to the state before the first power-on,
/// whatever is asked of it.
pub proof fn law_a_powered_rail_stays_powered(
    rail: RailModel,
    now: Tick,
    boot: ModuleBoot,
    off_for: Millis,
)
    requires
        rail.phase !is Off,
    ensures
        rail.powered(now).phase !is Off,
        rail.resetting(now, boot).0.phase !is Off,
        rail.ticking(now).0.phase !is Off,
        rail.cutting(now, off_for).phase !is Off,
{
}

/// No cut outlasts what the board allows: the bound holds of a new sequencer
/// and every step keeps it.
pub proof fn law_no_cut_outlasts_the_board(
    rail: RailModel,
    carried: CarriedCuts,
    plan: PlannedModel,
    now: Tick,
    boot: ModuleBoot,
)
    requires
        rail.sound(),
    ensures
        RailModel::fresh(rail.revision).sound(),
        rail.carrying(carried, now).sound(),
        rail.powered(now).sound(),
        rail.resetting(now, boot).0.sound(),
        rail.ticking(now).0.sound(),
        making(plan, rail, now).0.sound(),
        making(plan, rail, now).1 matches Recovery::Cycling { off_for, .. } ==> off_for.0
            <= rail.revision.spec_longest_rail_off().0,
{
}

/// A cut made at `at` keeps the rail off for exactly its off time and brings
/// it back then: no tick before does, and the first tick from then on does.
pub proof fn law_a_cut_lasts_its_whole_time(
    plan: PlannedModel,
    rail: RailModel,
    at: Tick,
    now: Tick,
)
    requires
        rail == plan.asked,
        at.0 + rail.bounded(plan.off_for).0 <= u64::MAX,
    ensures
        ({
            let cut = making(plan, rail, at).0;
            let off_for = rail.bounded(plan.off_for);
            &&& cut.lines().rail == RailLine::Off
            &&& now.0 < at.0 + off_for.0 ==> cut.ticking(now) == (cut, None::<RailEvent>)
            &&& now.0 >= at.0 + off_for.0 ==> cut.ticking(now).0.lines().rail == RailLine::On
                && cut.ticking(now).1 is Some
        }),
{
}

/// Three cycles in the last hour: revision A moves nothing and raises it.
pub proof fn law_revision_a_never_runs_the_third_rung(rail: RailModel, now: Tick)
    requires
        rail.revision == Revision::A,
        rail.counted(now) >= 3,
    ensures
        rail.plan(now) == PlanModel::LeftOnAndRaised || rail.plan(now) == PlanModel::Busy,
        rail.plan(now) == PlanModel::Busy <==> rail.phase is Cut || rail.phase is Rising
            || rail.phase is Strapping,
{
}

/// On revision A every planned cut is five seconds; on either board no plan
/// asks for more than the board allows.
pub proof fn law_a_plan_is_inside_the_board(rail: RailModel, now: Tick)
    ensures
        rail.plan(now) matches PlanModel::Cut(cut) ==> {
            &&& cut.asked == rail
            &&& cut.at == now
            &&& cut.off_for.0 <= rail.revision.spec_longest_rail_off().0
            &&& rail.revision == Revision::A ==> cut.off_for == Millis(CUT)
        },
{
}

/// A planned cut is made only on the sequencer it was planned on; a sequencer
/// that moved since is left alone.
pub proof fn law_a_plan_is_for_one_sequencer(plan: PlannedModel, rail: RailModel, at: Tick)
    ensures
        rail != plan.asked ==> making(plan, rail, at) == (rail, Recovery::Deferred),
        rail == plan.asked ==> making(plan, rail, at).0.phase is Cut,
{
}

/// A module reset moves a rail that is up, so a cut planned before it is not
/// made after it.
pub proof fn law_a_cut_planned_before_a_reset_is_not_made(
    rail: RailModel,
    now: Tick,
    later: Tick,
    boot: ModuleBoot,
)
    requires
        rail.plan(now) is Cut,
        rail.phase is Up,
    ensures
        rail.resetting(later, boot).1 == ModuleReset::Holding,
        making(rail.plan(now)->Cut_0, rail.resetting(later, boot).0, later) == (
            rail.resetting(later, boot).0,
            Recovery::Deferred,
        ),
{
}

/// The count kept before a cut is the count the sequencer holds once it is
/// made at that moment.
pub proof fn law_what_is_kept_is_what_is_counted(rail: RailModel, now: Tick)
    requires
        rail.plan(now) is Cut,
    ensures
        ({
            let plan = rail.plan(now)->Cut_0;
            let made = making(plan, rail, now).0;
            of_the_hour(plan.asked.cutting(plan.at, plan.off_for).cycles, plan.at) == of_the_hour(
                made.cycles,
                now,
            )
        }),
{
}

/// `EN` is never released before the rail has settled: a reset asked while it
/// settles keeps the later of the two deadlines.
pub proof fn law_a_reset_never_shortens_the_settling(
    rail: RailModel,
    now: Tick,
    boot: ModuleBoot,
    later: Tick,
)
    requires
        rail.phase is Rising,
        later.0 < rail.phase->Rising_until.0,
    ensures
        rail.resetting(now, boot).0.ticking(later).0.lines().en == EnLine::HeldLow,
{
}

/// A boot on revision A counts the reset that began it and one for every boot
/// the record missed, beside the cuts it carries, up to a full ladder.
pub proof fn law_a_boot_forgets_no_cut(rail: RailModel, carried: CarriedCuts, now: Tick)
    requires
        recent(carried.cuts.slots(), now).len() == carried.cuts.held(),
    ensures
        rail.revision.spec_rail_through_reset() == RailThroughReset::Off ==> rail.carrying(
            carried,
            now,
        ).counted(now) == if carried.cuts.held() + carried.missed + 1 < 3 {
            carried.cuts.held() + carried.missed + 1
        } else {
            3
        },
        rail.revision.spec_rail_through_reset() == RailThroughReset::On ==> rail.carrying(
            carried,
            now,
        ).counted(now) == carried.cuts.held(),
{
    law_a_cut_is_counted(carried.cuts, now, (carried.missed + 1) as nat);
}

/// A boot that carries the full ladder leaves revision A's rail on for its
/// first hour, whatever is asked.
pub proof fn law_a_full_ladder_cuts_nothing_on_a(rail: RailModel, now: Tick, asked: Tick)
    requires
        rail.revision == Revision::A,
        now.0 <= asked.0 <= HOUR,
    ensures
        rail.carrying(CarriedCuts::spec_full(), now).counted(asked) == 3,
        !(rail.carrying(CarriedCuts::spec_full(), now).plan(asked) is Cut),
{
    let full = CarriedCuts::spec_full().cuts;
    reveal_with_fuel(remembered_times, 3);
    reveal_with_fuel(next_slot, 4);
    assert(full.slots().drop_last() =~= seq![full.0, full.1]);
    assert(full.slots().drop_last().drop_last() =~= seq![full.0]);
    lemma_three(remembered(full, now), asked);
}

/// The rail is only ever cut on the turn its own count landed: a turn without
/// that answer never starts a cut.
pub proof fn law_no_cut_before_its_count_lands(
    task: RailTask,
    now: Tick,
    request: Option<RailRequest>,
    answer: Option<KeepAnswer>,
)
    requires
        task.sequencer.phase !is Cut,
    ensures
        task.turning(now, request, answer).0.sequencer.phase is Cut ==> {
            &&& task.planned is Some
            &&& answer matches Some((Keep::Cut(_), Ok(_)))
            &&& !(request matches Some(RailRequest::ResetModule(_)))
        },
        task.turning(now, request, answer).1.recovered matches Some(Recovery::Cycling { .. }) ==> {
            &&& task.planned is Some
            &&& answer matches Some((Keep::Cut(_), Ok(_)))
        },
{
}

/// While a cut waits on its count nothing else goes out to be kept, and a
/// second recovery changes nothing.
pub proof fn law_nothing_else_starts_while_a_cut_waits(
    task: RailTask,
    now: Tick,
    request: Option<RailRequest>,
)
    requires
        task.planned is Some,
        !(request matches Some(RailRequest::ResetModule(_))),
    ensures
        task.turning(now, request, None).1.keep is None,
        task.turning(now, request, None).1.recovered is None,
        task.turning(now, request, None).0.planned == task.planned,
{
}

/// A boot with no store asks for no write but a planned cut's own count, and
/// never learns what the part holds.
pub proof fn law_no_store_no_change_kept(
    task: RailTask,
    now: Tick,
    request: Option<RailRequest>,
    answer: Option<KeepAnswer>,
)
    requires
        task.on_part is None,
    ensures
        task.turning(now, request, answer).0.on_part is None,
        !(task.turning(now, request, answer).1.keep matches Some(Keep::Changed(_))),
{
}

/// Nothing but a cut, and what a boot carries, moves the cuts remembered.
pub proof fn law_only_a_cut_moves_the_cuts(rail: RailModel, now: Tick, boot: ModuleBoot)
    ensures
        rail.ticking(now).0.cycles == rail.cycles,
        rail.resetting(now, boot).0.cycles == rail.cycles,
        rail.powered(now).cycles == rail.cycles,
{
}

/// The rail once a cut was made at each of `at`, one after another.
pub open spec fn cut_at_each(rail: RailModel, at: Seq<Tick>, off_for: Millis) -> RailModel
    decreases at.len(),
{
    if at.len() == 0 {
        rail
    } else {
        cut_at_each(rail, at.drop_last(), off_for).cutting(at.last(), off_for)
    }
}

/// The resets a boot at `now` counts as cuts: on a board whose rail is off
/// through one, the reset that began it and one for every boot the record
/// missed.
pub open spec fn resets_of(rail: RailModel, carried: CarriedCuts, now: Tick) -> Seq<Tick> {
    match rail.revision.spec_rail_through_reset() {
        RailThroughReset::Off => Seq::new((carried.missed + 1) as nat, |i: int| now),
        RailThroughReset::On => Seq::empty(),
    }
}

/// Cuts made one after another are those remembered.
proof fn lemma_cut_at_each(rail: RailModel, at: Seq<Tick>, off_for: Millis)
    ensures
        cut_at_each(rail, at, off_for).cycles == made(rail.cycles, at),
    decreases at.len(),
{
    if at.len() > 0 {
        lemma_cut_at_each(rail, at.drop_last(), off_for);
    }
}

/// As many cuts at one moment are those remembered.
proof fn lemma_remembered_times(cuts: RecentCuts, now: Tick, n: nat)
    ensures
        remembered_times(cuts, now, n) == made(cuts, Seq::new(n, |i: int| now)),
    decreases n,
{
    let at = Seq::new(n, |i: int| now);
    if n > 0 {
        lemma_remembered_times(cuts, now, (n - 1) as nat);
        assert(at.drop_last() =~= Seq::new((n - 1) as nat, |i: int| now));
    }
}

/// Cuts made in two runs are those made in one.
proof fn lemma_made_twice(cuts: RecentCuts, first: Seq<Tick>, then: Seq<Tick>)
    ensures
        made(made(cuts, first), then) == made(cuts, first + then),
    decreases then.len(),
{
    let all = first + then;
    if then.len() == 0 {
        assert(all =~= first);
    } else {
        lemma_made_twice(cuts, first, then.drop_last());
        assert(all.drop_last() =~= first + then.drop_last());
        assert(all.last() == then.last());
    }
}

/// The cuts a rail counts at `now` are, of the latest three it carried or made,
/// those at most an hour old, oldest first: whatever it carried into the boot at
/// `boot`, and however many cuts it made since.
pub proof fn law_the_cuts_counted_are_of_the_latest_three(
    rail: RailModel,
    carried: CarriedCuts,
    boot: Tick,
    at: Seq<Tick>,
    off_for: Millis,
    now: Tick,
)
    requires
        in_turn(carried.cuts, resets_of(rail, carried, boot) + at),
    ensures
        ({
            let cut = cut_at_each(rail.carrying(carried, boot), at, off_for);
            let all = in_order(carried.cuts) + resets_of(rail, carried, boot) + at;
            of_the_hour(cut.cycles, now) == kept(
                last_three(all).filter(|c: Tick| is_recent(c, now)),
            )
        }),
{
    let resets = resets_of(rail, carried, boot);
    lemma_cut_at_each(rail.carrying(carried, boot), at, off_for);
    lemma_remembered_times(carried.cuts, boot, (carried.missed + 1) as nat);
    assert(made(carried.cuts, Seq::empty()) == carried.cuts);
    assert(rail.carrying(carried, boot).cycles == made(carried.cuts, resets));
    lemma_made_twice(carried.cuts, resets, at);
    law_the_cuts_of_the_hour_are_among_the_latest_three(carried.cuts, resets + at, now);
    assert(in_order(carried.cuts) + (resets + at) =~= in_order(carried.cuts) + resets + at);
}

/// A recovery asked while nothing moves is a cut: five seconds below three
/// cycles in the last hour, and from three on what the board's third rung does,
/// fifteen minutes on revision B and nothing on revision A. While a cut, a rise
/// or a strap is under way the answer is that it is busy, and only then.
pub proof fn law_a_recovery_at_rest_is_planned(rail: RailModel, now: Tick)
    ensures
        rail.plan(now) is Busy <==> !(rail.phase is Up) && !(rail.phase is Off),
        rail.phase is Up || rail.phase is Off ==> {
            &&& rail.counted(now) < 3 ==> (rail.plan(now) matches PlanModel::Cut(cut)
                && cut.off_for.0 == 5_000 && cut.at == now && cut.asked == rail)
            &&& rail.counted(now) >= 3 && rail.revision == Revision::B ==> (rail.plan(
                now,
            ) matches PlanModel::Cut(cut) && cut.off_for.0 == 900_000 && cut.at == now && cut.asked
                == rail)
            &&& rail.counted(now) >= 3 && rail.revision == Revision::A ==> rail.plan(now)
                == PlanModel::LeftOnAndRaised
        },
{
}

/// A cut asked for is as long as it was asked for up to five seconds on
/// revision A and fifteen minutes on revision B, and that long beyond; it is
/// remembered, and the rail and `EN` go down with it.
pub proof fn law_a_cut_takes_the_rail_and_en_down(rail: RailModel, now: Tick, off_for: Millis)
    ensures
        ({
            let after = rail.cutting(now, off_for);
            let most: u64 = if rail.revision == Revision::A {
                5_000
            } else {
                900_000
            };
            &&& after.lines().rail == RailLine::Off
            &&& after.lines().en == EnLine::HeldLow
            &&& after.lines().boot == BootLine::Released
            &&& off_for.0 <= most ==> rail.bounded(off_for) == off_for
            &&& off_for.0 > most ==> rail.bounded(off_for).0 == most
            &&& after.revision == rail.revision
            &&& !after.settled()
        }),
{
}

/// A rail that is off before its first power-on is powered with `EN` held low,
/// settles a tenth of a second later and no sooner, and then runs with every
/// line released. One that is on already is left alone.
pub proof fn law_a_first_power_on_settles(rail: RailModel, now: Tick, later: Tick)
    requires
        now.0 + 100 <= u64::MAX,
    ensures
        rail.phase !is Off ==> rail.powered(now) == rail,
        rail.phase is Off ==> {
            let up = rail.powered(now);
            &&& up.lines().rail == RailLine::On
            &&& up.lines().en == EnLine::HeldLow
            &&& up.lines().boot == BootLine::Released
            &&& later.0 < now.0 + 100 ==> up.ticking(later) == (up, None::<RailEvent>)
            &&& later.0 >= now.0 + 100 ==> {
                &&& up.ticking(later).1 == Some(RailEvent::Settled)
                &&& up.ticking(later).0.settled()
                &&& up.ticking(later).0.phase is Up
            }
        },
        RailModel::fresh(Revision::A).phase is Off,
        RailModel::fresh(Revision::B).phase is Up,
        RailModel::fresh(rail.revision).counted(now) == 0,
{
    let none = RecentCuts(None, None, None);
    lemma_three(none, now);
}

/// How the lines are driven in each place of the sequence: the rail is off in a
/// cut and before the first power-on, `EN` is low in a cut and while the rail
/// rises, and the boot strap is low only on the way into the download mode.
pub proof fn law_the_lines_follow_the_sequence(rail: RailModel)
    ensures
        rail.lines().rail == RailLine::Off <==> rail.phase is Cut || rail.phase is Off,
        rail.lines().en == EnLine::HeldLow <==> rail.phase is Cut || rail.phase is Rising,
        rail.lines().boot == BootLine::HeldLow <==> (rail.phase is Strapping || (rail.phase is Rising
            && rail.phase->Rising_strap)),
        rail.settled() <==> rail.lines().rail == RailLine::On && rail.lines().en
            == EnLine::Released,
{
}

/// A module reset on a settled rail holds `EN` low for fifty milliseconds and
/// releases it then. Into the download mode the boot strap is low with it and
/// stays low for a tenth of a second after, and it is let go then; otherwise it
/// is never touched.
pub proof fn law_a_reset_holds_en_and_the_strap(
    rail: RailModel,
    now: Tick,
    boot: ModuleBoot,
    later: Tick,
    last: Tick,
)
    requires
        rail.settled(),
        now.0 + 50 <= u64::MAX,
        later.0 + 100 <= u64::MAX,
    ensures
        ({
            let (held, said) = rail.resetting(now, boot);
            let download = boot == ModuleBoot::Download;
            let released = held.ticking(later).0;
            &&& said == ModuleReset::Holding
            &&& held.lines().rail == RailLine::On
            &&& held.lines().en == EnLine::HeldLow
            &&& held.lines().boot == BootLine::HeldLow <==> download
            &&& later.0 < now.0 + 50 ==> held.ticking(later) == (held, None::<RailEvent>)
            &&& later.0 >= now.0 + 50 ==> {
                &&& held.ticking(later).1 == Some(RailEvent::Settled)
                &&& released.lines().en == EnLine::Released
                &&& released.lines().boot == BootLine::HeldLow <==> download
                &&& last.0 < later.0 + 100 ==> (released.ticking(last).0.lines().boot
                    == BootLine::HeldLow <==> download)
                &&& last.0 >= later.0 + 100 ==> released.ticking(last).0.phase is Up
                &&& released.ticking(last).1 is None
            }
        }),
{
}

/// A module reset does nothing to a rail that is off, and says so; on one that
/// is on it always takes hold.
pub proof fn law_a_reset_needs_the_rail(rail: RailModel, now: Tick, boot: ModuleBoot)
    ensures
        rail.lines().rail == RailLine::Off ==> rail.resetting(now, boot) == (
            rail,
            ModuleReset::NotPowered,
        ),
        rail.lines().rail == RailLine::On ==> rail.resetting(now, boot).1 == ModuleReset::Holding
            && rail.resetting(now, boot).0.lines().en == EnLine::HeldLow,
        rail.resetting(now, boot).0.lines().rail == rail.lines().rail,
        rail.resetting(now, boot).0.revision == rail.revision,
{
}

/// A cut that ends is told with the cycles of the last hour, and the rail then
/// settles for a tenth of a second with `EN` held low.
pub proof fn law_a_cut_that_ends_is_told(rail: RailModel, now: Tick, later: Tick)
    requires
        rail.phase is Cut,
        rail.phase->Cut_until.0 <= now.0,
        now.0 + 100 <= u64::MAX,
        rail.counted(now) <= 3,
    ensures
        rail.ticking(now).1 matches Some(RailEvent::PowerCycled { count }) && count
            == rail.counted(now),
        rail.ticking(now).0.lines().rail == RailLine::On,
        rail.ticking(now).0.lines().en == EnLine::HeldLow,
        later.0 < now.0 + 100 ==> rail.ticking(now).0.ticking(later).0 == rail.ticking(now).0,
        later.0 >= now.0 + 100 ==> rail.ticking(now).0.ticking(later).0.phase is Up
            && rail.ticking(now).0.ticking(later).1 == Some(RailEvent::Settled),
{
}

/// At rest time changes nothing and tells nothing.
pub proof fn law_time_alone_moves_nothing_at_rest(rail: RailModel, now: Tick)
    requires
        rail.phase is Up || rail.phase is Off,
    ensures
        rail.ticking(now) == (rail, None::<RailEvent>),
{
}

/// A planned cut is made on the turn its count lands, on the sequencer it was
/// planned on, and is answered with its count and its off time; a count that
/// did not land defers it, and either way it no longer waits.
pub proof fn law_a_planned_cut_is_made_or_deferred(
    task: RailTask,
    now: Tick,
    cuts: RecentCuts,
    kept: Result<(), NotKept>,
)
    requires
        task.planned matches Some(plan) && plan.asked == task.sequencer,
        task.sequencer.phase is Up,
        task.sequencer.cutting(now, (task.planned->0).off_for).counted(now) <= 3,
        now.0 + 900_000 <= u64::MAX,
        (task.planned->0).off_for.0 > 0,
    ensures
        ({
            let (after, turn) = task.turning(now, None, Some((Keep::Cut(cuts), kept)));
            &&& after.planned is None
            &&& turn.reset is None
            &&& kept is Ok ==> {
                &&& after.sequencer.lines().rail == RailLine::Off
                &&& turn.recovered matches Some(Recovery::Cycling { count, off_for })
                    && off_for == task.sequencer.bounded((task.planned->0).off_for) && count
                    == after.sequencer.counted(now)
            }
            &&& kept is Err ==> {
                &&& after.sequencer == task.sequencer
                &&& turn.recovered == Some(Recovery::Deferred)
            }
        }),
{
}

/// A recovery asked while no cut waits is answered at once when the ladder
/// raises it or something moves; else it is planned, its count goes out to be
/// kept, and the rail stays as it is.
pub proof fn law_a_recovery_asked_is_planned_or_answered(task: RailTask, now: Tick)
    requires
        task.planned is None,
    ensures
        ({
            let (after, turn) = task.turning(now, Some(RailRequest::Recover), None);
            match task.sequencer.plan(now) {
                PlanModel::Cut(plan) => {
                    &&& after.planned == Some(plan)
                    &&& turn.recovered is None
                    &&& turn.keep matches Some(Keep::Cut(cuts)) && cuts == of_the_hour(
                        task.sequencer.cutting(now, plan.off_for).cycles,
                        now,
                    )
                    &&& after.sequencer == task.sequencer
                },
                PlanModel::LeftOnAndRaised => after.planned is None && turn.recovered == Some(
                    Recovery::LeftOnAndRaised,
                ),
                PlanModel::Busy => after.planned is None && turn.recovered == Some(Recovery::Busy),
            }
        }),
{
}

/// A module reset is served on the turn it is asked, whatever was answered: it
/// drops the cut that waits, and says it was put off.
pub proof fn law_a_reset_drops_the_cut_that_waits(
    task: RailTask,
    now: Tick,
    boot: ModuleBoot,
    answer: Option<KeepAnswer>,
)
    ensures
        ({
            let (after, turn) = task.turning(
                now,
                Some(RailRequest::ResetModule(boot)),
                answer,
            );
            &&& after.planned is None
            &&& turn.reset == Some(task.sequencer.resetting(now, boot).1)
            &&& task.planned is Some ==> turn.recovered == Some(Recovery::Deferred)
            &&& task.planned is None ==> turn.recovered is None
            &&& after.sequencer.cycles == task.sequencer.cycles
        }),
{
}

/// Cuts the part is not known to hold go out to be kept while no cut waits and
/// no retry does; once they land they do not go out again until they change,
/// and after a write that did not land they go out again a second later.
pub proof fn law_the_cuts_go_out_until_they_land(task: RailTask, now: Tick, part: CutsOnPart)
    requires
        task.planned is None,
        task.on_part == Some(part),
    ensures
        ({
            let (after, turn) = task.turning(now, None, None);
            let cuts = of_the_hour(task.sequencer.cycles, now);
            let waits = part.retry_at is Some && now.0 < (part.retry_at->0).0;
            &&& turn.keep == if part.held != Some(cuts) && !waits {
                Some(Keep::Changed(cuts))
            } else {
                None
            }
            &&& after.on_part == Some(part)
        }),
{
}

/// What is known of the part after an answer: what landed, with nothing left to
/// wait for; or nothing, with the next try a second later.
pub proof fn law_an_answer_says_what_the_part_holds(
    task: RailTask,
    now: Tick,
    keep: Keep,
    kept: Result<(), NotKept>,
)
    requires
        task.on_part is Some,
        now.0 + 1_000 <= u64::MAX,
    ensures
        ({
            let after = task.turning(now, None, Some((keep, kept))).0;
            &&& after.on_part matches Some(part) && {
                &&& kept is Ok ==> part.held == Some(keep.spec_cuts()) && part.retry_at is None
                &&& kept is Err ==> part.held is None && part.retry_at == Some(
                    Tick((now.0 + 1_000) as u64),
                )
            }
        }),
{
}

} // verus!
