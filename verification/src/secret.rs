//! What a unit is born with: the device id etched into it, the printed secret
//! on its label, and the controller key clients pin.
//!
//! Provisioned at manufacture; read at every boot; never exposed to the comms
//! processor and never logged, so the types have no `Debug`. The printed
//! secret derives the pairing's two keys and nothing else. Only the private
//! half of the controller key is stored; the public half is derived when it is
//! needed.

use vstd::prelude::*;

use crate::body::{body_of, Body, Malformed};
use crate::bytes::{all_are, copy_at};

verus! {

/// Bytes of the device id.
pub const DEVICE_ID_BYTES: usize = 16;

/// Bytes of the printed secret.
pub const PRINTED_SECRET_BYTES: usize = 32;

/// The bytes the secret takes in its record: the id, then the secret.
pub const SECRET_BYTES: usize = 48;

/// The bytes the controller key takes in its record: the private half.
pub const CONTROLLER_KEY_BYTES: usize = 32;

/// `km43::DeviceId`, the sixteen bytes a controller is known by.
#[verifier::external_type_specification]
#[verifier::external_body]
pub struct ExDeviceId(km43::DeviceId);

/// `km43::Label`, what a unit's printed label carries.
#[verifier::external_type_specification]
#[verifier::external_body]
pub struct ExLabel(km43::Label);

/// `km43::StaticKey`, a key pair.
#[verifier::external_type_specification]
#[verifier::external_body]
pub struct ExStaticKey(km43::StaticKey);

/// `km43::PublicKey`, the half of a key pair that leaves the station.
#[verifier::external_type_specification]
#[verifier::external_body]
pub struct ExPublicKey(km43::PublicKey);

/// `km43::Fingerprint`, what a label prints of a public key.
#[verifier::external_type_specification]
#[verifier::external_body]
pub struct ExFingerprint(km43::Fingerprint);

/// The bytes of a device id.
pub uninterp spec fn device_bytes(id: km43::DeviceId) -> Seq<u8>;

/// The device id and the printed secret of a label.
pub uninterp spec fn label_words(label: km43::Label) -> (Seq<u8>, Seq<u8>);

/// The private half of a key pair.
pub uninterp spec fn private_half(key: km43::StaticKey) -> Seq<u8>;

/// The bytes of a public key.
pub uninterp spec fn public_bytes(key: km43::PublicKey) -> Seq<u8>;

/// The public half that belongs to a private one.
pub uninterp spec fn public_of(private: Seq<u8>) -> Seq<u8>;

/// The fingerprint of a public key.
pub uninterp spec fn fingerprint_of(public: Seq<u8>) -> Seq<u8>;

/// The bytes of a fingerprint.
pub uninterp spec fn fingerprint_bytes(fingerprint: km43::Fingerprint) -> Seq<u8>;

/// `km43::DeviceId::new`. Trusted: the id is made of these bytes.
#[verifier::external_body]
fn device_id_of(bytes: [u8; 16]) -> (r: km43::DeviceId)
    ensures
        device_bytes(r) == bytes@,
{
    km43::DeviceId::new(bytes)
}

/// `km43::Label::new`, over `km43::DeviceId::new` and
/// `km43::PrintedSecret::new`. Trusted: the label carries this id and this
/// secret.
#[verifier::external_body]
fn label_of(device_id: [u8; 16], printed: [u8; 32]) -> (r: km43::Label)
    ensures
        label_words(r) == (device_id@, printed@),
{
    km43::Label::new(km43::DeviceId::new(device_id), km43::PrintedSecret::new(printed))
}

/// `km43::StaticKey::from_stored`. Trusted: the pair's private half is these
/// bytes.
#[verifier::external_body]
fn key_of(private: [u8; 32]) -> (r: km43::StaticKey)
    ensures
        private_half(r) == private@,
{
    km43::StaticKey::from_stored(private)
}

/// `km43::StaticKey::public`. Trusted: the public half depends on the private
/// one alone, as [`public_of`] names it.
#[verifier::external_body]
fn public_half(key: &km43::StaticKey) -> (r: km43::PublicKey)
    ensures
        public_bytes(r) == public_of(private_half(*key)),
{
    key.public()
}

/// `km43::Fingerprint::of`. Trusted: the fingerprint depends on the public key
/// alone, as [`fingerprint_of`] names it.
#[verifier::external_body]
fn print_of(public: &km43::PublicKey) -> (r: km43::Fingerprint)
    ensures
        fingerprint_bytes(r) == fingerprint_of(public_bytes(*public)),
{
    km43::Fingerprint::of(public)
}

/// Whether every byte is zero.
pub open spec fn all_zero(s: Seq<u8>) -> bool {
    forall|i: int| 0 <= i < s.len() ==> s[i] == 0
}

/// What a secret holds.
pub struct SecretModel {
    /// The device id.
    pub device_id: Seq<u8>,
    /// The printed secret.
    pub printed: Seq<u8>,
}

impl SecretModel {
    /// Full lengths, and some entropy in the printed secret.
    pub open spec fn sound(self) -> bool {
        &&& self.device_id.len() == 16
        &&& self.printed.len() == 32
        &&& !all_zero(self.printed)
    }
}

/// What a unit knows about itself.
#[derive(Clone, Copy, PartialEq, Eq)]
pub struct Secret {
    device_id: [u8; 16],
    printed: [u8; 32],
}

/// A secret with no entropy in it: every byte zero. The tool that writes one
/// has failed, and a unit that derives from it has no secret.
#[derive(Debug, Clone, Copy, PartialEq, Eq, Structural)]
pub struct NoEntropy;

impl View for Secret {
    type V = SecretModel;

    closed spec fn view(&self) -> SecretModel {
        SecretModel { device_id: self.device_id@, printed: self.printed@ }
    }
}

impl Secret {
    #[verifier::type_invariant]
    spec fn whole(self) -> bool {
        self@.sound()
    }

    /// The pair as the manufacturing tool hands it over, refused when the
    /// printed secret is all zero.
    pub fn new(device_id: [u8; 16], printed: [u8; 32]) -> (r: Result<Self, NoEntropy>)
        ensures
            r is Err <==> all_zero(printed@),
            r matches Ok(secret) ==> secret@ == (SecretModel {
                device_id: device_id@,
                printed: printed@,
            }),
    {
        if all_are(printed.as_slice(), 0) {
            Err(NoEntropy)
        } else {
            Ok(Secret { device_id, printed })
        }
    }

    /// The sixteen bytes every discovery answer publishes.
    pub fn device_id(&self) -> (r: km43::DeviceId)
        ensures
            device_bytes(r) == self@.device_id,
    {
        device_id_of(self.device_id)
    }

    /// The same sixteen bytes, as a discovery answer carries them.
    pub fn device_id_bytes(&self) -> (r: [u8; 16])
        ensures
            r@ == self@.device_id,
    {
        self.device_id
    }

    /// What the unit's label prints, which derives the pairing's pre-shared
    /// key and its refusal key and nothing else.
    pub fn label(&self) -> (r: km43::Label)
        ensures
            label_words(r) == (self@.device_id, self@.printed),
    {
        label_of(self.device_id, self.printed)
    }
}

impl Body<48> for Secret {
    open spec fn image(v: SecretModel) -> Seq<u8> {
        v.device_id + v.printed
    }

    open spec fn reading(bytes: Seq<u8>) -> Result<SecretModel, Malformed> {
        if all_zero(bytes.subrange(16, 48)) {
            Err(Malformed { at: 16 })
        } else {
            Ok(SecretModel { device_id: bytes.subrange(0, 16), printed: bytes.subrange(16, 48) })
        }
    }

    fn encode(&self) -> (r: [u8; 48]) {
        let mut out = [0u8; 48];
        copy_at(&mut out, 0, self.device_id.as_slice());
        copy_at(&mut out, 16, self.printed.as_slice());
        proof {
            assert(out@ =~= self@.device_id + self@.printed);
        }
        out
    }

    fn decode(bytes: &[u8; 48]) -> (r: Result<Self, Malformed>) {
        let whole = bytes.as_slice();
        let device_id = body_of::<16>(&whole[0..16]);
        let printed = body_of::<32>(&whole[16..48]);
        proof {
            assert(device_id@ =~= bytes@.subrange(0, 16));
            assert(printed@ =~= bytes@.subrange(16, 48));
        }
        match Secret::new(device_id, printed) {
            Ok(secret) => Ok(secret),
            Err(_) => Err(Malformed { at: 16 }),
        }
    }
}

/// A secret written down reads back as it was.
pub proof fn law_a_secret_reads_back(secret: SecretModel)
    requires
        secret.sound(),
    ensures
        <Secret as Body<48>>::reading(<Secret as Body<48>>::image(secret)) == Ok::<
            SecretModel,
            Malformed,
        >(secret),
{
    let bytes = <Secret as Body<48>>::image(secret);
    assert(bytes.subrange(0, 16) =~= secret.device_id);
    assert(bytes.subrange(16, 48) =~= secret.printed);
}

/// The private half of the controller key, as the part holds it: it leaves
/// only as the key it builds.
#[derive(Clone, Copy, PartialEq, Eq)]
pub struct ControllerKey([u8; 32]);

impl View for ControllerKey {
    type V = Seq<u8>;

    closed spec fn view(&self) -> Seq<u8> {
        self.0@
    }
}

impl ControllerKey {
    #[verifier::type_invariant]
    spec fn whole(self) -> bool {
        !all_zero(self.0@)
    }

    /// A key the manufacturing station drew, refused when every byte is zero.
    pub fn new(private: [u8; 32]) -> (r: Result<Self, NoEntropy>)
        ensures
            r is Err <==> all_zero(private@),
            r matches Ok(key) ==> key@ == private@,
    {
        if all_are(private.as_slice(), 0) {
            Err(NoEntropy)
        } else {
            Ok(ControllerKey(private))
        }
    }

    /// The key pair, its public half derived from the private one.
    pub fn key(&self) -> (r: km43::StaticKey)
        ensures
            private_half(r) == self@,
    {
        key_of(self.0)
    }

    /// The public half.
    pub fn public(&self) -> (r: km43::PublicKey)
        ensures
            public_bytes(r) == public_of(self@),
    {
        public_half(&self.key())
    }

    /// The fingerprint the label prints.
    pub fn fingerprint(&self) -> (r: km43::Fingerprint)
        ensures
            fingerprint_bytes(r) == fingerprint_of(public_of(self@)),
    {
        print_of(&self.public())
    }
}

impl Body<32> for ControllerKey {
    open spec fn image(v: Seq<u8>) -> Seq<u8> {
        v
    }

    open spec fn reading(bytes: Seq<u8>) -> Result<Seq<u8>, Malformed> {
        if all_zero(bytes) {
            Err(Malformed { at: 0 })
        } else {
            Ok(bytes)
        }
    }

    fn encode(&self) -> (r: [u8; 32]) {
        self.0
    }

    fn decode(bytes: &[u8; 32]) -> (r: Result<Self, Malformed>) {
        match ControllerKey::new(*bytes) {
            Ok(key) => Ok(key),
            Err(_) => Err(Malformed { at: 0 }),
        }
    }
}

/// A controller key written down reads back as it was.
pub proof fn law_a_controller_key_reads_back(private: Seq<u8>)
    requires
        !all_zero(private),
    ensures
        <ControllerKey as Body<32>>::reading(<ControllerKey as Body<32>>::image(private)) == Ok::<
            Seq<u8>,
            Malformed,
        >(private),
{
}

} // verus!
