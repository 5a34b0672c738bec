//! What a unit knows about itself.

use km43::DeviceId;
use o89_core::body::{Body, Malformed};
use o89_core::secret::{ControllerKey, Secret, SECRET_BYTES};

#[test]
fn p_044_a_secret_survives_the_round_trip_and_derives_the_same_keys() {
    let secret = Secret::new([1; 16], [2; 32]).expect("entropy");
    let found = Secret::decode(&secret.encode()).expect("decodes");
    assert!(found == secret);
    assert_eq!(found.device_id(), DeviceId::new([1; 16]));
    assert_eq!(found.label().device_id(), secret.label().device_id());
}

#[test]
fn p_044_a_printed_secret_of_zeros_is_refused_and_not_a_record() {
    assert!(Secret::new([1; 16], [0; 32]).is_err());
    let mut bytes = [0u8; SECRET_BYTES];
    bytes[..16].copy_from_slice(&[1; 16]);
    assert_eq!(Secret::decode(&bytes).err(), Some(Malformed { at: 16 }));
}

#[test]
fn p_235_the_controller_key_round_trips_and_its_public_half_is_derived() {
    let key = ControllerKey::new([9; 32]).expect("entropy");
    let found = ControllerKey::decode(&key.encode()).expect("decodes");
    assert_eq!(found.encode(), key.encode());
    assert!(found.public().matches(&key.key().public()));
    assert!(found.fingerprint().vouches_for(&key.public()));
    let other = ControllerKey::new([8; 32]).expect("entropy");
    assert!(!other.fingerprint().vouches_for(&key.public()));
}

#[test]
fn p_235_a_controller_key_of_zeros_is_refused_and_not_a_record() {
    assert!(ControllerKey::new([0; 32]).is_err());
    assert_eq!(
        ControllerKey::decode(&[0; 32]).err(),
        Some(Malformed { at: 0 })
    );
}

#[test]
fn p_038_a_device_id_of_zeros_is_an_id_like_any_other() {
    // The id is a salt, not a secret; it is whatever was etched.
    let secret = Secret::new([0; 16], [3; 32]).expect("entropy in the secret");
    assert_eq!(secret.device_id(), DeviceId::new([0; 16]));
}
