//! Why the generator runs, and where it is declared.

use o89_core::body::{Body, Malformed, Refused};
use o89_core::run_reason::{
    Behaviour, KeptReason, RunReason, Running, StartKind, RUN_REASON_BYTES,
};
use o89_core::tick::UnixMillis;

/// A part that holds one record.
struct Part {
    bytes: [u8; RUN_REASON_BYTES],
    falling: bool,
}

impl Part {
    fn write(&mut self, reason: RunReason) -> Result<(), Refused> {
        if self.falling {
            return Err(Refused::SupplyFalling);
        }
        self.bytes = reason.encode();
        Ok(())
    }

    fn read(&self) -> KeptReason {
        KeptReason::read(RunReason::decode(&self.bytes).ok())
    }
}

fn part() -> Part {
    Part {
        bytes: [0; RUN_REASON_BYTES],
        falling: false,
    }
}

fn automatic() -> RunReason {
    RunReason::Running(Running {
        kind: StartKind::Automatic(Behaviour::Frost),
        started: UnixMillis::new(1_790_000_000_000),
    })
}

#[test]
fn f_022_the_output_moves_only_on_a_reason_the_part_holds() {
    let mut part = part();
    let mut kept = part.read();
    let declared = kept
        .declare(automatic(), part.write(automatic()))
        .expect("the supply is fine");
    assert_eq!(declared.reason(), automatic());
    let found = part.read();
    assert_eq!(found.present(), Some(&automatic()));
    // A stop is declared the same way.
    let stopped = kept
        .declare(RunReason::Stopped, part.write(RunReason::Stopped))
        .expect("the supply is fine");
    assert_eq!(stopped.reason(), RunReason::Stopped);
}

#[test]
fn f_022_a_write_that_is_refused_declares_nothing() {
    let mut part = part();
    let mut kept = part.read();
    let _stopped = kept
        .declare(RunReason::Stopped, part.write(RunReason::Stopped))
        .expect("the supply is fine");
    part.falling = true;
    assert_eq!(
        kept.declare(automatic(), part.write(automatic())),
        Err(Refused::SupplyFalling)
    );
    assert_eq!(kept.present(), Some(&RunReason::Stopped));
}

#[test]
fn every_reason_survives_the_round_trip() {
    let reasons = [
        RunReason::Stopped,
        RunReason::Running(Running {
            kind: StartKind::Manual,
            started: None,
        }),
        automatic(),
        RunReason::Running(Running {
            kind: StartKind::Automatic(Behaviour::LoadShed),
            started: None,
        }),
    ];
    for reason in reasons {
        assert_eq!(
            RunReason::decode(&reason.encode()),
            Ok(reason),
            "{reason:?}"
        );
    }
    assert_eq!(RunReason::Stopped.encode(), [0; RUN_REASON_BYTES]);
}

#[test]
fn a_state_authority_or_behaviour_nobody_named_is_malformed() {
    let mut state = automatic().encode();
    state[0] = 2;
    assert_eq!(RunReason::decode(&state), Err(Malformed { at: 0 }));
    let mut kind = automatic().encode();
    kind[1] = 3;
    assert_eq!(RunReason::decode(&kind), Err(Malformed { at: 1 }));
    let mut behaviour = automatic().encode();
    behaviour[2] = 5;
    assert_eq!(RunReason::decode(&behaviour), Err(Malformed { at: 2 }));
    // Manual with a behaviour named is two decisions at once.
    let mut both = automatic().encode();
    both[1] = 1;
    assert_eq!(RunReason::decode(&both), Err(Malformed { at: 2 }));
    // Running under nobody.
    let mut nobody = automatic().encode();
    nobody[1] = 0;
    nobody[2] = 0;
    assert_eq!(RunReason::decode(&nobody), Err(Malformed { at: 1 }));
}
