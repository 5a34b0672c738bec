//! A session's window on the request numbers it has accepted.
//!
//! The highest number the session has accepted and which of those just below
//! it it has accepted too. A request is refused when its number was accepted
//! already, or when it is below the window; inside that band it may arrive in
//! any order, which is the reorder four requests in flight already permit.
//!
//! This bounds how old a signed write can be when it lands: a frame held back
//! is refused once the client's next requests move the highest past it. A
//! request number outlasts the hardware, so there is no wrap: a zero after the
//! last one is below the window like any other old number.

use vstd::prelude::*;

use crate::idents::ReqId;

verus! {

/// How many requests a client may have in flight.
pub const MAX_INFLIGHT: usize = 4;

/// Numbers the window remembers: the highest and the four below it. The floor
/// is accepted, so the band is one wider than the in-flight count: a window
/// that remembered one fewer would let the number at its floor be replayed.
pub const SPAN: usize = 5;

/// Why a request number was refused.
#[derive(Debug, Clone, Copy, PartialEq, Eq, Structural)]
#[must_use]
pub enum OutOfWindow {
    /// Accepted already in this session.
    Replayed,
    /// Below the window: too old to say whether it was seen.
    BelowWindow,
}

/// What a window remembers.
pub struct WindowModel {
    /// The highest number accepted.
    pub highest: u32,
    /// Whether the number so many below the highest was accepted.
    pub seen: Seq<bool>,
}

impl WindowModel {
    /// Whether `id` is in the band the window remembers.
    pub open spec fn in_band(self, id: u32) -> bool {
        id <= self.highest && self.highest - id < SPAN
    }

    /// Whether `id` is remembered as accepted.
    pub open spec fn has(self, id: u32) -> bool {
        self.in_band(id) && self.seen[self.highest - id]
    }

    /// What accepting `id` answers.
    pub open spec fn verdict(self, id: u32) -> Result<(), OutOfWindow> {
        if id > self.highest {
            Ok(())
        } else if !self.in_band(id) {
            Err(OutOfWindow::BelowWindow)
        } else if self.has(id) {
            Err(OutOfWindow::Replayed)
        } else {
            Ok(())
        }
    }

    /// The window once `id` has been offered: a number accepted is remembered
    /// with those still in the band, and a refusal changes nothing.
    pub open spec fn offered(self, id: u32) -> Self {
        if self.verdict(id) is Ok {
            let highest = if id > self.highest {
                id
            } else {
                self.highest
            };
            WindowModel {
                highest,
                seen: Seq::new(
                    SPAN as nat,
                    |d: int| d <= highest && (highest - d == id || self.has((highest - d) as u32)),
                ),
            }
        } else {
            self
        }
    }

    /// A window of the right width, with nothing seen below zero.
    pub open spec fn sound(self) -> bool {
        &&& self.seen.len() == SPAN
        &&& forall|d: int| self.highest < d < SPAN ==> !#[trigger] self.seen[d]
    }

    /// Whether `id` can never be accepted again: it was, or it is below the
    /// window.
    pub open spec fn spent(self, id: u32) -> bool {
        id <= self.highest && (self.has(id) || !self.in_band(id))
    }
}

/// A session's window.
#[derive(Debug, Clone, Copy, PartialEq, Eq)]
pub struct ReqWindow {
    highest: u32,
    seen: [bool; SPAN],
}

impl View for ReqWindow {
    type V = WindowModel;

    closed spec fn view(&self) -> WindowModel {
        WindowModel { highest: self.highest, seen: self.seen@ }
    }
}

impl ReqWindow {
    /// The window of a session that `opened` bound: the request that opened it
    /// is its first accepted one.
    pub fn opened_by(opened: ReqId) -> (r: Self)
        ensures
            r@.sound(),
            r@.highest == opened.0,
            forall|id: u32| #[trigger] r@.has(id) <==> id == opened.0,
    {
        ReqWindow { highest: opened.0, seen: [true, false, false, false, false] }
    }

    /// Accept `req_id`, or say why not. A refusal changes nothing.
    pub fn accept(&mut self, req_id: ReqId) -> (r: Result<(), OutOfWindow>)
        requires
            old(self)@.sound(),
        ensures
            final(self)@.sound(),
            r == old(self)@.verdict(req_id.0),
            final(self)@ == old(self)@.offered(req_id.0),
    {
        let id: u32 = req_id.0;
        if id > self.highest {
            let ahead: u32 = id - self.highest;
            self.advance(ahead);
            self.highest = id;
            self.seen[0] = true;
            proof {
                assert(self@.seen =~= old(self)@.offered(id).seen);
            }
            return Ok(());
        }
        let behind: u32 = self.highest - id;
        if behind as usize >= SPAN {
            return Err(OutOfWindow::BelowWindow);
        }
        if self.seen[behind as usize] {
            return Err(OutOfWindow::Replayed);
        }
        self.seen[behind as usize] = true;
        proof {
            let before = old(self)@;
            assert forall|d: int| 0 <= d < SPAN implies self@.seen[d] == before.offered(
                id,
            ).seen[d] by {
                if d <= self.highest {
                    assert(before.has((self.highest - d) as u32) == before.seen[d]);
                }
            }
            assert(self@.seen =~= before.offered(id).seen);
        }
        Ok(())
    }

    /// Move the band up by `ahead`: what falls below the new floor is
    /// forgotten, and the numbers it skipped have not been seen.
    pub fn advance(&mut self, ahead: u32)
        requires
            ahead > 0,
        ensures
            final(self)@.highest == old(self)@.highest,
            final(self)@.seen == Seq::new(
                SPAN as nat,
                |d: int| d >= ahead && old(self)@.seen[d - ahead],
            ),
    {
        let mut at: usize = SPAN;
        while at > 0
            invariant
                at <= SPAN,
                ahead > 0,
                self.highest == old(self).highest,
                self.seen@.len() == SPAN,
                old(self).seen@.len() == SPAN,
                forall|d: int|
                    at <= d < SPAN ==> #[trigger] self.seen@[d] == (d >= ahead && old(
                        self,
                    ).seen@[d - ahead]),
                forall|d: int| 0 <= d < at ==> #[trigger] self.seen@[d] == old(self).seen@[d],
            decreases at,
        {
            at = at - 1;
            let was: bool = if (ahead as usize) <= at {
                self.seen[at - ahead as usize]
            } else {
                false
            };
            self.seen[at] = was;
        }
        proof {
            assert(self@.seen =~= Seq::new(
                SPAN as nat,
                |d: int| d >= ahead && old(self)@.seen[d - ahead],
            ));
        }
    }
}

/// The windows a session goes through as it is offered `ids` in turn.
pub open spec fn after_all(window: WindowModel, ids: Seq<u32>) -> WindowModel
    decreases ids.len(),
{
    if ids.len() == 0 {
        window
    } else {
        after_all(window, ids.drop_last()).offered(ids.last())
    }
}

/// What is spent stays spent, and what was just accepted is spent.
proof fn lemma_spent_stays(window: WindowModel, id: u32, next: u32)
    requires
        window.sound(),
    ensures
        window.offered(next).sound(),
        window.spent(id) ==> window.offered(next).spent(id),
        window.verdict(next) is Ok ==> window.offered(next).spent(next),
        window.spent(id) ==> window.verdict(id) is Err,
{
    let after = window.offered(next);
    if window.verdict(next) is Ok {
        if id <= after.highest && after.highest - id < SPAN {
            assert(after.seen[after.highest - id] == (id == next || window.has(id)));
        }
        if next <= after.highest && after.highest - next < SPAN {
            assert(after.seen[after.highest - next]);
        }
    }
}

/// What is spent stays spent whatever is offered after it.
proof fn lemma_spent_stays_through(window: WindowModel, id: u32, ids: Seq<u32>)
    requires
        window.sound(),
    ensures
        after_all(window, ids).sound(),
        window.spent(id) ==> after_all(window, ids).spent(id),
    decreases ids.len(),
{
    if ids.len() > 0 {
        lemma_spent_stays_through(window, id, ids.drop_last());
        lemma_spent_stays(after_all(window, ids.drop_last()), id, ids.last());
    }
}

/// A number is accepted at most once in a session: once it has been, every
/// later offer of it is refused, whatever came between.
pub proof fn law_each_number_is_accepted_at_most_once(
    window: WindowModel,
    id: u32,
    between: Seq<u32>,
)
    requires
        window.sound(),
        window.verdict(id) is Ok,
    ensures
        after_all(window.offered(id), between).verdict(id) is Err,
{
    lemma_spent_stays(window, id, id);
    lemma_spent_stays_through(window.offered(id), id, between);
    lemma_spent_stays(after_all(window.offered(id), between), id, id);
}

/// A number more than four below the highest accepted is refused, seen or not,
/// and stays refused.
pub proof fn law_below_the_window_is_refused(window: WindowModel, id: u32, between: Seq<u32>)
    requires
        window.sound(),
        id + MAX_INFLIGHT < window.highest,
    ensures
        window.verdict(id) == Err::<(), OutOfWindow>(OutOfWindow::BelowWindow),
        after_all(window, between).verdict(id) is Err,
{
    lemma_spent_stays_through(window, id, between);
    lemma_spent_stays(after_all(window, between), id, id);
}

/// A number above the highest is always accepted, and one inside the window
/// that was never accepted is too.
pub proof fn law_a_fresh_number_is_accepted(window: WindowModel, id: u32)
    requires
        window.sound(),
        !window.has(id),
        id + MAX_INFLIGHT >= window.highest,
    ensures
        window.verdict(id) is Ok,
        window.offered(id).has(id),
{
    lemma_spent_stays(window, id, id);
}

/// A refusal changes nothing.
pub proof fn law_a_refusal_changes_nothing(window: WindowModel, id: u32)
    requires
        window.verdict(id) is Err,
    ensures
        window.offered(id) == window,
{
}

/// Accepting one number leaves every other in reach as it was: one still to
/// come is still accepted, one that came is still refused. The highest is the
/// greatest accepted.
pub proof fn law_accepting_one_leaves_the_others(window: WindowModel, id: u32, other: u32)
    requires
        window.sound(),
        window.verdict(id) is Ok,
        other != id,
        other + 4 >= window.offered(id).highest,
    ensures
        window.offered(id).verdict(other) is Ok <==> window.verdict(other) is Ok,
        window.offered(id).highest == if id > window.highest {
            id
        } else {
            window.highest
        },
{
    let after = window.offered(id);
    if other <= after.highest {
        assert(after.seen[after.highest - other] == (other == id || window.has(other)));
    }
}

/// A refusal says which it is: below the window by more than four, or one that
/// came before.
pub proof fn law_a_refusal_says_which(window: WindowModel, id: u32)
    requires
        window.sound(),
    ensures
        window.verdict(id) == Err::<(), OutOfWindow>(OutOfWindow::BelowWindow) <==> id + 4
            < window.highest,
        window.verdict(id) == Err::<(), OutOfWindow>(OutOfWindow::Replayed) <==> id
            <= window.highest <= id + 4 && window.seen[window.highest - id],
{
}

} // verus!
