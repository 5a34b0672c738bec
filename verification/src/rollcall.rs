//! The roll every task answers to, and whether the watchdog has earned its
//! next feed.
//!
//! A watchdog fed from a timer does not work: the timer fires whatever else is
//! wedged. So the feed is earned: every task checks in on its own schedule,
//! and this answers one question, may the part be fed. It never feeds
//! anything.

use vstd::prelude::*;

use crate::tick::{Millis, Tick};

verus! {

/// Every task the controller runs, each declaring how long it may go without
/// checking in.
#[derive(Debug, Clone, Copy, PartialEq, Eq, Structural)]
pub enum Task {
    /// The rollcall itself, the lamp, and the feed.
    Supervisor,
    /// The 1 Hz control tick.
    Control,
    /// The link to the comms processor.
    Link,
    /// The only owner of the FRAM and NOR buses.
    Recorder,
    /// The first RS-485 port.
    Rs485One,
    /// The second RS-485 port.
    Rs485Two,
    /// The third RS-485 port.
    Rs485Three,
    /// The CAN port.
    Can,
    /// The first VE.Direct port.
    VeDirectOne,
    /// The second VE.Direct port.
    VeDirectTwo,
    /// The 1-Wire bus.
    OneWire,
    /// The ADC channels.
    Adc,
    /// The selector.
    Selector,
    /// The lamp pattern.
    Lamp,
    /// The module rail sequence.
    Rail,
    /// The boot itself, before the supervisor runs. Never on the roll: the
    /// boot writes it down as a provisional blame and clears it once the store
    /// is read, so a boot the watchdog cuts short is still named.
    Boot,
    /// Key agreement, on the executor below every other task's.
    Agreement,
}

/// How many tasks the roll holds.
pub const TASKS: usize = 17;

impl Task {
    /// The task's place on the roll.
    pub open spec fn place(self) -> nat {
        match self {
            Task::Supervisor => 0,
            Task::Control => 1,
            Task::Link => 2,
            Task::Recorder => 3,
            Task::Rs485One => 4,
            Task::Rs485Two => 5,
            Task::Rs485Three => 6,
            Task::Can => 7,
            Task::VeDirectOne => 8,
            Task::VeDirectTwo => 9,
            Task::OneWire => 10,
            Task::Adc => 11,
            Task::Selector => 12,
            Task::Lamp => 13,
            Task::Rail => 14,
            Task::Boot => 15,
            Task::Agreement => 16,
        }
    }

    /// Every task, in roll order, which is the order a late one is named in.
    pub fn all() -> (r: [Task; TASKS])
        ensures
            forall|i: int| 0 <= i < TASKS ==> (#[trigger] r@[i]).place() == i,
    {
        [
            Task::Supervisor,
            Task::Control,
            Task::Link,
            Task::Recorder,
            Task::Rs485One,
            Task::Rs485Two,
            Task::Rs485Three,
            Task::Can,
            Task::VeDirectOne,
            Task::VeDirectTwo,
            Task::OneWire,
            Task::Adc,
            Task::Selector,
            Task::Lamp,
            Task::Rail,
            Task::Boot,
            Task::Agreement,
        ]
    }

    /// The task's place on the roll as one byte, which is how the boot record
    /// carries it.
    pub fn byte(self) -> (r: u8)
        ensures
            r == self.place(),
    {
        match self {
            Task::Supervisor => 0,
            Task::Control => 1,
            Task::Link => 2,
            Task::Recorder => 3,
            Task::Rs485One => 4,
            Task::Rs485Two => 5,
            Task::Rs485Three => 6,
            Task::Can => 7,
            Task::VeDirectOne => 8,
            Task::VeDirectTwo => 9,
            Task::OneWire => 10,
            Task::Adc => 11,
            Task::Selector => 12,
            Task::Lamp => 13,
            Task::Rail => 14,
            Task::Boot => 15,
            Task::Agreement => 16,
        }
    }

    /// The task's place on the roll, which is what the last words carry.
    pub fn index(self) -> (r: u32)
        ensures
            r == self.place(),
    {
        self.byte() as u32
    }

    /// The task's place on the roll, to index it with.
    pub fn slot(self) -> (r: usize)
        ensures
            r == self.place(),
            r < TASKS,
    {
        self.byte() as usize
    }

    /// The task at a place on the roll, for a value read back from memory.
    pub fn from_index(index: u32) -> (r: Option<Self>)
        ensures
            r is Some <==> index < TASKS,
            r matches Some(task) ==> task.place() == index,
    {
        if (index as usize) < TASKS {
            let all = Task::all();
            Some(all[index as usize])
        } else {
            None
        }
    }

    /// How long the task may go without checking in, in milliseconds.
    pub open spec fn patience(self) -> u64 {
        match self {
            Task::Supervisor | Task::Control | Task::Selector | Task::Lamp => 5_000,
            Task::Link
            | Task::Rs485One
            | Task::Rs485Two
            | Task::Rs485Three
            | Task::Can
            | Task::Agreement => 10_000,
            Task::VeDirectOne | Task::VeDirectTwo | Task::Adc => 15_000,
            Task::Recorder | Task::OneWire | Task::Rail => 30_000,
            Task::Boot => 3_000,
        }
    }

    /// How long the task may go without checking in before the feed is
    /// withheld. Generous next to each task's own period: this catches a hang,
    /// not jitter.
    pub fn window(self) -> (r: Millis)
        ensures
            r == Millis(self.patience()),
    {
        let millis: u64 = match self {
            Task::Supervisor | Task::Control | Task::Selector | Task::Lamp => 5_000,
            // The longest agreement job takes about two and a half seconds;
            // ten covers it and a check-in either side.
            Task::Link
            | Task::Rs485One
            | Task::Rs485Two
            | Task::Rs485Three
            | Task::Can
            | Task::Agreement => 10_000,
            Task::VeDirectOne | Task::VeDirectTwo | Task::Adc => 15_000,
            Task::Recorder | Task::OneWire | Task::Rail => 30_000,
            Task::Boot => 3_000,
        };
        Millis::from_millis(millis)
    }
}

/// The task that stopped a feed, and how far past its window it is.
#[derive(Debug, Clone, Copy, PartialEq, Eq, Structural)]
pub struct Blame {
    /// The task.
    pub task: Task,
    /// How long past its window.
    pub overdue: Millis,
}

/// Whether the next feed has been earned.
///
/// Three answers and not two, because *nothing is on the roll* is not health:
/// a firmware that started nothing would otherwise feed forever on an empty
/// table.
#[derive(Debug, Clone, Copy, PartialEq, Eq, Structural)]
#[must_use]
pub enum Feed {
    /// Every task on the roll has checked in inside its window.
    Earned,
    /// One has not. The name is the point: this is what the supervisor writes
    /// down before it stops feeding.
    Withheld(Blame),
    /// No task has started. Not health, and not starvation either.
    NobodyOnTheRoll,
}

/// The roll: when each task last checked in.
///
/// A task is on the roll from its first check-in, which comes right before the
/// task starts, so there is no *never reported* state that has to read as
/// either healthy or starving.
#[derive(Debug, Clone, Copy, PartialEq, Eq)]
pub struct Rollcall {
    answers: [Option<Tick>; TASKS],
}

/// How long past its window `task` is at `now` on `roll`; nothing for one that
/// is off the roll, inside its window, or that checked in after `now`.
pub open spec fn overdue(roll: Seq<Option<Tick>>, task: Task, now: Tick) -> Option<Millis> {
    match roll[task.place() as int] {
        Some(last) => match now.spec_since(last) {
            Some(silent) if silent.0 > task.patience() => Some(
                Millis((silent.0 - task.patience()) as u64),
            ),
            _ => None,
        },
        None => None,
    }
}

/// Whether `feed` is what `roll` says at `now`: the first task past its window,
/// the feed earned when somebody is on the roll and nobody is late, and
/// otherwise nobody.
pub open spec fn says(roll: Seq<Option<Tick>>, now: Tick, feed: Feed) -> bool {
    match feed {
        Feed::Withheld(blame) => {
            &&& overdue(roll, blame.task, now) == Some(blame.overdue)
            &&& forall|t: Task|
                t.place() < blame.task.place() ==> (#[trigger] overdue(roll, t, now)) is None
        },
        Feed::Earned => {
            &&& forall|t: Task| (#[trigger] overdue(roll, t, now)) is None
            &&& exists|t: Task| (#[trigger] roll[t.place() as int]) is Some
        },
        Feed::NobodyOnTheRoll => forall|t: Task| (#[trigger] roll[t.place() as int]) is None,
    }
}

impl View for Rollcall {
    type V = Seq<Option<Tick>>;

    closed spec fn view(&self) -> Seq<Option<Tick>> {
        self.answers@
    }
}

impl Default for Rollcall {
    fn default() -> (r: Self)
        ensures
            r@ == Seq::new(TASKS as nat, |i: int| None::<Tick>),
    {
        Self::new()
    }
}

impl Rollcall {
    /// A roll has a place for every task.
    pub proof fn lemma_len(&self)
        ensures
            self@.len() == TASKS,
    {
    }

    /// Nobody on the roll yet.
    pub fn new() -> (r: Self)
        ensures
            r@ == Seq::new(TASKS as nat, |i: int| None::<Tick>),
    {
        let answers = [
            None, None, None, None, None, None, None, None, None, None, None, None, None, None, None,
            None, None,
        ];
        proof {
            assert(answers@ =~= Seq::new(TASKS as nat, |i: int| None::<Tick>));
        }
        Rollcall { answers }
    }

    /// A task has completed one pass of its work, or is about to start.
    pub fn check_in(&mut self, task: Task, now: Tick)
        ensures
            final(self)@ == old(self)@.update(task.place() as int, Some(now)),
    {
        let slot: usize = task.slot();
        self.answers[slot] = Some(now);
    }

    /// A task that will never run, because its peripheral would not configure,
    /// stops being waited for.
    pub fn retire(&mut self, task: Task)
        ensures
            final(self)@ == old(self)@.update(task.place() as int, None),
    {
        let slot: usize = task.slot();
        self.answers[slot] = None;
    }

    /// May the part be fed at `now`? The first task on the roll that is past
    /// its window is the one named.
    pub fn verdict(&self, now: Tick) -> (r: Feed)
        ensures
            says(self@, now, r),
    {
        let all = Task::all();
        let mut anyone: bool = false;
        let mut i: usize = 0;
        while i < TASKS
            invariant
                i <= TASKS,
                all@.len() == TASKS,
                self@.len() == TASKS,
                forall|k: int| 0 <= k < TASKS ==> (#[trigger] all@[k]).place() == k,
                anyone ==> exists|t: Task| (#[trigger] self@[t.place() as int]) is Some,
                !anyone ==> forall|t: Task| t.place() < i ==> (#[trigger] self@[t.place() as int]) is None,
                forall|t: Task| t.place() < i ==> (#[trigger] overdue(self@, t, now)) is None,
            decreases TASKS - i,
        {
            let task = all[i];
            if let Some(last) = self.answers[i] {
                assert(self@[task.place() as int] is Some);
                anyone = true;
                // A tick never runs backwards; a last check-in after `now` is
                // the same boot's future, which cannot be late.
                if let Some(silent) = now.since(last) {
                    let window = task.window();
                    if silent.as_millis() > window.as_millis() {
                        let over = Millis::from_millis(silent.as_millis() - window.as_millis());
                        return Feed::Withheld(Blame { task, overdue: over });
                    }
                }
            }
            assert(overdue(self@, task, now) is None);
            assert forall|t: Task| t.place() < i + 1 implies (#[trigger] overdue(self@, t, now)) is None by {
                if t.place() == i {
                    law_places_tell_tasks_apart(t, task);
                }
            }
            assert(!anyone ==> forall|t: Task|
                t.place() < i + 1 ==> (#[trigger] self@[t.place() as int]) is None);
            i = i + 1;
        }
        if anyone {
            Feed::Earned
        } else {
            Feed::NobodyOnTheRoll
        }
    }
}

/// Every task has a place of its own on the roll, and some patience.
pub proof fn law_places_tell_tasks_apart(a: Task, b: Task)
    ensures
        a.place() < TASKS,
        a.place() == b.place() <==> a == b,
        a.patience() > 0,
{
}

/// A roll says one thing at a time.
pub proof fn law_a_roll_says_one_thing(roll: Seq<Option<Tick>>, now: Tick, a: Feed, b: Feed)
    requires
        says(roll, now, a),
        says(roll, now, b),
    ensures
        a == b,
{
    match (a, b) {
        (Feed::Withheld(x), Feed::Withheld(y)) => {
            law_places_tell_tasks_apart(x.task, y.task);
            assert(overdue(roll, x.task, now) is Some && overdue(roll, y.task, now) is Some);
        },
        (Feed::Withheld(x), _) => {
            assert(overdue(roll, x.task, now) is Some);
            assert(roll[x.task.place() as int] is Some);
        },
        (_, Feed::Withheld(y)) => {
            assert(overdue(roll, y.task, now) is Some);
            assert(roll[y.task.place() as int] is Some);
        },
        _ => {},
    }
}

/// A check-in puts its task on the roll: from then on somebody is on it, that
/// task is late only once its whole window has passed since, and no other
/// task's check-in moves, so none is made late or forgiven.
pub proof fn law_a_check_in_earns_the_feed_back(
    roll: Rollcall,
    task: Task,
    other: Task,
    at: Tick,
    now: Tick,
    feed: Feed,
)
    ensures
        ({
            let after = roll@.update(task.place() as int, Some(at));
            &&& overdue(after, task, now) is Some ==> now.0 > at.0 + task.patience()
            &&& overdue(after, task, at) is None
            &&& other != task ==> after[other.place() as int] == roll@[other.place() as int]
            &&& other != task ==> overdue(after, other, now) == overdue(roll@, other, now)
            &&& says(after, now, feed) ==> !(feed is NobodyOnTheRoll)
            &&& says(after, now, feed) ==> (feed matches Feed::Withheld(blame) ==> (blame.task
                == task ==> now.0 > at.0 + task.patience()))
        }),
{
    roll.lemma_len();
    law_places_tell_tasks_apart(task, other);
    let after = roll@.update(task.place() as int, Some(at));
    assert(after[task.place() as int] is Some);
}

/// A retired task is not waited for: it is never late and never named, a
/// check-in before it was retired leaves no trace, and with nobody else on the
/// roll nobody is on it.
pub proof fn law_a_retired_task_is_not_waited_for(
    roll: Rollcall,
    task: Task,
    at: Tick,
    now: Tick,
    feed: Feed,
)
    ensures
        ({
            let place = task.place() as int;
            let after = roll@.update(place, None);
            &&& roll@.update(place, Some(at)).update(place, None) == after
            &&& overdue(after, task, now) is None
            &&& says(after, now, feed) ==> (feed matches Feed::Withheld(blame) ==> blame.task
                != task)
            &&& (forall|t: Task| t != task ==> (#[trigger] roll@[t.place() as int]) is None)
                ==> says(after, now, Feed::NobodyOnTheRoll)
        }),
{
    roll.lemma_len();
    law_places_tell_tasks_apart(task, task);
    let place = task.place() as int;
    let after = roll@.update(place, None);
    assert(roll@.update(place, Some(at)).update(place, None) =~= after);
    if forall|t: Task| t != task ==> (#[trigger] roll@[t.place() as int]) is None {
        assert forall|t: Task| (#[trigger] after[t.place() as int]) is None by {
            law_places_tell_tasks_apart(t, task);
            if t != task {
                assert(roll@[t.place() as int] is None);
            }
        }
    }
}

/// A task silent past its window withholds the feed, whichever task it is, and
/// one is named at or before its place; a feed withheld names a task that is on
/// the roll and says exactly how far past its window it is; and a feed earned
/// means that nobody on the roll is.
pub proof fn law_a_silent_task_withholds_the_feed(
    roll: Rollcall,
    task: Task,
    last: Tick,
    now: Tick,
    feed: Feed,
)
    requires
        roll@[task.place() as int] == Some(last),
        says(roll@, now, feed),
    ensures
        now.0 > last.0 + task.patience() ==> (feed matches Feed::Withheld(blame)
            && blame.task.place() <= task.place()),
        feed matches Feed::Withheld(blame) ==> (blame.task == task ==> now.0 == last.0
            + task.patience() + blame.overdue.0 && blame.overdue.0 > 0),
        feed is Earned ==> now.0 <= last.0 + task.patience(),
        !(feed is NobodyOnTheRoll),
{
    roll.lemma_len();
    law_places_tell_tasks_apart(task, task);
    let mine = overdue(roll@, task, now);
    assert(roll@[task.place() as int] is Some);
    if now.0 > last.0 + task.patience() {
        assert(mine is Some);
    }
    if let Feed::Withheld(blame) = feed {
        if task.place() < blame.task.place() {
            assert(overdue(roll@, task, now) is None);
        }
    }
}

/// How long each task may be silent: three seconds for the boot, five for what
/// watches and drives, ten for the buses, the link and the agreement, fifteen
/// for the slow inputs and thirty for what waits on the part or the rail.
pub proof fn law_each_task_has_its_window(task: Task)
    ensures
        task.patience() == 3_000 <==> task == Task::Boot,
        task.patience() == 5_000 <==> task == Task::Supervisor || task == Task::Control || task
            == Task::Selector || task == Task::Lamp,
        task.patience() == 10_000 <==> task == Task::Link || task == Task::Rs485One || task
            == Task::Rs485Two || task == Task::Rs485Three || task == Task::Can || task
            == Task::Agreement,
        task.patience() == 15_000 <==> task == Task::VeDirectOne || task == Task::VeDirectTwo
            || task == Task::Adc,
        task.patience() == 30_000 <==> task == Task::Recorder || task == Task::OneWire || task
            == Task::Rail,
{
}

} // verus!
