//! The one release the comms processor may install.

use o89_core::body::{Body, Malformed};
use o89_core::release::{CommsRelease, Digest, Release, COMMS_RELEASE_BYTES, DIGEST_BYTES};
use o89_core::text::Text;
use o89_core::tick::Tick;

fn release(digest: u8, at: u64) -> Release {
    Release {
        version: Text::new("1.4.0+abc123").expect("fits"),
        image_len: 95_040,
        digest: Digest([digest; DIGEST_BYTES]),
        authorised_at: Tick::from_millis(at),
    }
}

#[test]
fn l_174_one_release_at_a_time_and_a_new_one_replaces_it_with_both_in_hand() {
    let mut held = CommsRelease::Nothing;
    assert_eq!(held.authorise(release(1, 0)), None);
    assert_eq!(held.authorise(release(2, 5)), Some(release(1, 0)));
    assert_eq!(held.live(Tick::from_millis(5)), Some(&release(2, 5)));
    assert!(!held.admits(&Digest([1; 32]), Tick::from_millis(5)));
    assert!(held.admits(&Digest([2; 32]), Tick::from_millis(5)));
    assert_eq!(held.revoke(), Some(release(2, 5)));
    assert_eq!(held, CommsRelease::Nothing);
    assert_eq!(held.revoke(), None);
}

#[test]
fn l_174_an_authorisation_lapses_at_ten_minutes_and_a_reboot_gives_it_ten_more_never_longer() {
    let mut held = CommsRelease::Nothing;
    let _ = held.authorise(release(3, 1_000));
    assert!(held.admits(&Digest([3; 32]), Tick::from_millis(600_999)));
    assert!(!held.admits(&Digest([3; 32]), Tick::from_millis(601_000)));
    assert_eq!(held.live(Tick::from_millis(601_000)), None);
    let rebooted = held.rebased();
    assert!(rebooted.admits(&Digest([3; 32]), Tick::from_millis(599_999)));
    assert!(!rebooted.admits(&Digest([3; 32]), Tick::from_millis(600_000)));
    assert_eq!(CommsRelease::Nothing.rebased(), CommsRelease::Nothing);
}

#[test]
fn l_170_the_digest_survives_the_round_trip_and_a_stray_state_is_malformed() {
    let held = CommsRelease::Authorised(release(4, 77));
    assert_eq!(CommsRelease::decode(&held.encode()), Ok(held));
    assert_eq!(
        CommsRelease::decode(&[0; COMMS_RELEASE_BYTES]),
        Ok(CommsRelease::Nothing)
    );
    let mut stray = held.encode();
    stray[0] = 2;
    assert_eq!(CommsRelease::decode(&stray), Err(Malformed { at: 0 }));
    let mut long = held.encode();
    long[1] = 33;
    assert_eq!(CommsRelease::decode(&long), Err(Malformed { at: 1 }));
}
