//! The board revision, and the policies the firmware reads from it.
//!
//! Revision A of the controller board has defects the firmware lives with and
//! revision B fixes some of. Every policy below has an arm per revision, and
//! nothing else in the crate decides on a [`Revision`]: a rule like *never
//! switch the module rail on after minutes off* is a value that can be read.

use vstd::prelude::*;

use crate::tick::Millis;

verus! {

/// The controller board, by revision.
#[derive(Debug, Clone, Copy, PartialEq, Eq, Structural)]
pub enum Revision {
    /// The boards on the bench.
    A,
    /// The rework.
    B,
}

/// Whether the strap alone enters the module ROM's serial download mode.
#[derive(Debug, Clone, Copy, PartialEq, Eq, Structural)]
pub enum StrapRoute {
    /// The second strap floats and reads low: the route works only with a
    /// wire holding it high, so it is the bench's, never the firmware's own.
    NeedsIo8Wire,
    /// The second strap is pulled up: the firmware may take this route by
    /// itself.
    Wired,
}

/// What the module rail does through a controller reset.
#[derive(Debug, Clone, Copy, PartialEq, Eq, Structural)]
pub enum RailThroughReset {
    /// The switch defaults off, so every reset reboots the module and is a
    /// switch-on nobody chose.
    Off,
    /// The switch defaults on: a reset never power-cycles the radio.
    On,
}

/// The recovery ladder's third rung, which asks for a long cut.
#[derive(Debug, Clone, Copy, PartialEq, Eq, Structural)]
pub enum ThirdRung {
    /// Cut the rail for this long.
    Cut(Millis),
    /// Stop cycling, leave the rail on and raise comms unrecoverable.
    LeaveOnAndRaise,
}

/// Whether the part may ever enter a stop mode.
#[derive(Debug, Clone, Copy, PartialEq, Eq, Structural)]
pub enum StopMode {
    /// A part in stop mode is one the probe cannot reach again.
    Forbidden,
    /// The reset line is on the header and low power becomes possible.
    Allowed,
}

/// The longest a rail cycle may leave the module off on revision A, in
/// milliseconds.
const REVISION_A_LONGEST_OFF: u64 = 5_000;

/// The third rung's cut in milliseconds: fifteen minutes.
const THIRD_RUNG_CUT: u64 = 900_000;

impl Revision {
    /// What the board does to the module rail through a reset.
    pub open spec fn spec_rail_through_reset(self) -> RailThroughReset {
        match self {
            Revision::A => RailThroughReset::Off,
            Revision::B => RailThroughReset::On,
        }
    }

    /// What the board does to the module rail through a reset.
    pub fn rail_through_reset(self) -> (r: RailThroughReset)
        ensures
            r == self.spec_rail_through_reset(),
    {
        match self {
            Revision::A => RailThroughReset::Off,
            Revision::B => RailThroughReset::On,
        }
    }

    /// The longest any rail cycle may leave the module off: five seconds on
    /// revision A, fifteen minutes on revision B.
    pub open spec fn spec_longest_rail_off(self) -> Millis {
        match self {
            Revision::A => Millis(5_000),
            Revision::B => Millis(900_000),
        }
    }

    /// The longest any rail cycle may leave the module off.
    ///
    /// On revision A short cycles pass and a switch-on after minutes off does
    /// not; revision B has a slew-limited switch, and the ladder's own rung is
    /// the bound.
    pub fn longest_rail_off(self) -> (r: Millis)
        ensures
            r == self.spec_longest_rail_off(),
    {
        match self {
            Revision::A => Millis(REVISION_A_LONGEST_OFF),
            Revision::B => Millis(THIRD_RUNG_CUT),
        }
    }

    /// How the module ROM's strapping route into download mode is reached.
    pub fn strap_route(self) -> (r: StrapRoute)
        ensures
            r == (match self {
                Revision::A => StrapRoute::NeedsIo8Wire,
                Revision::B => StrapRoute::Wired,
            }),
    {
        match self {
            Revision::A => StrapRoute::NeedsIo8Wire,
            Revision::B => StrapRoute::Wired,
        }
    }

    /// What the ladder's third rung does on this board.
    pub open spec fn spec_third_rung(self) -> ThirdRung {
        match self {
            Revision::A => ThirdRung::LeaveOnAndRaise,
            Revision::B => ThirdRung::Cut(Millis(900_000)),
        }
    }

    /// What the ladder's third rung does on this board.
    pub fn third_rung(self) -> (r: ThirdRung)
        ensures
            r == self.spec_third_rung(),
    {
        match self {
            Revision::A => ThirdRung::LeaveOnAndRaise,
            Revision::B => ThirdRung::Cut(Millis(THIRD_RUNG_CUT)),
        }
    }

    /// Whether any code may enter a stop mode.
    pub fn stop_mode(self) -> (r: StopMode)
        ensures
            r == (match self {
                Revision::A => StopMode::Forbidden,
                Revision::B => StopMode::Allowed,
            }),
    {
        match self {
            Revision::A => StopMode::Forbidden,
            Revision::B => StopMode::Allowed,
        }
    }
}

/// No revision's third rung cuts the rail longer than the revision allows.
pub proof fn law_no_rung_outlasts_its_board(revision: Revision)
    ensures
        revision.spec_third_rung() matches ThirdRung::Cut(cut) ==> cut.0
            <= revision.spec_longest_rail_off().0,
{
}

/// The two boards differ in all of it: on revision A the rail is off through a
/// reset, no cycle lasts longer than five seconds and the third rung only
/// raises; on revision B the rail stays on, and the third rung cuts it for the
/// fifteen minutes that are also the most any cycle may take.
pub proof fn law_the_boards_differ(revision: Revision)
    ensures
        revision.spec_rail_through_reset() == RailThroughReset::Off <==> revision == Revision::A,
        revision.spec_third_rung() == ThirdRung::LeaveOnAndRaise <==> revision == Revision::A,
        revision.spec_third_rung() matches ThirdRung::Cut(cut) ==> cut.0 == 900_000,
        revision.spec_longest_rail_off().0 == 5_000 <==> revision == Revision::A,
        revision.spec_longest_rail_off().0 == 900_000 <==> revision == Revision::B,
{
}

} // verus!
