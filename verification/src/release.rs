//! The authorised comms release: which bytes the comms processor may install,
//! kept across a power cut because a brown-out in the middle of an install is
//! the ordinary case.
//!
//! The controller authorises a digest, and the digest is what decides: an
//! image that arrives by any transport is installed only when it hashes to the
//! authorised one. At most one release is authorised at a time, and an
//! authorisation lapses when its install window expires, because the recovery
//! ladder is suspended while an install is in flight. The window is measured
//! on the tick, so a surviving authorisation restarts at the new boot's tick
//! zero.

use vstd::prelude::*;

use crate::body::{body_of, padded, Body, Malformed};
use crate::bytes::{
    copy_at, from_le, le, lemma_from_le_bound, lemma_le_len, lemma_le_round_trip, lemma_spans,
    push_le, read_le, same, spliced,
};
use crate::text::{law_a_text_reads_back, text_at, Text, TextModel};
use crate::tick::Tick;

verus! {

broadcast use lemma_le_len;

/// The bytes the release takes in its record.
pub const COMMS_RELEASE_BYTES: usize = 96;

/// Bytes of the version text.
pub const VERSION_BYTES: usize = 32;

/// Bytes of the digest.
pub const DIGEST_BYTES: usize = 32;

/// How long an authorisation lives, in milliseconds: ten minutes.
pub const INSTALL_WINDOW: u64 = 600_000;

/// A SHA-256 digest over the whole image.
#[derive(Debug, Clone, Copy, PartialEq, Eq)]
pub struct Digest(pub [u8; 32]);

/// One authorised release.
#[derive(Debug, Clone, Copy, PartialEq, Eq)]
pub struct Release {
    /// What it calls itself; informative, the digest decides.
    pub version: Text<32>,
    /// The image's length in bytes.
    pub image_len: u32,
    /// The digest the arriving bytes must hash to.
    pub digest: Digest,
    /// When it was authorised, on the tick of the boot that holds it.
    pub authorised_at: Tick,
}

/// What a release says.
pub struct ReleaseModel {
    /// Its version text.
    pub version: TextModel,
    /// The image's length.
    pub image_len: u32,
    /// The digest.
    pub digest: Seq<u8>,
    /// When it was authorised.
    pub authorised_at: Tick,
}

impl ReleaseModel {
    /// Whether the window is still open at `now`.
    pub open spec fn live(self, now: Tick) -> bool {
        self.authorised_at.0 <= now.0 && now.0 - self.authorised_at.0 < INSTALL_WINDOW
    }

    /// A version that fits its field, and a digest of full length.
    pub open spec fn sound(self) -> bool {
        &&& self.version.sound(32)
        &&& self.digest.len() == 32
    }

    /// The release as bytes, after the byte that says there is one.
    pub open spec fn parts(self) -> Seq<u8> {
        seq![1u8] + self.version.image() + le(self.image_len as nat, 4) + self.digest + le(
            self.authorised_at.0 as nat,
            8,
        )
    }
}

/// The release that is live at `now`, if there is one.
pub open spec fn live_of(held: Option<ReleaseModel>, now: Tick) -> Option<ReleaseModel> {
    match held {
        Some(release) => if release.live(now) {
            Some(release)
        } else {
            None
        },
        None => None,
    }
}

/// What survives to the next boot: the authorisation, restarted at its start.
pub open spec fn rebased_of(held: Option<ReleaseModel>) -> Option<ReleaseModel> {
    match held {
        Some(release) => Some(ReleaseModel { authorised_at: Tick(0), ..release }),
        None => None,
    }
}

impl View for Release {
    type V = ReleaseModel;

    open spec fn view(&self) -> ReleaseModel {
        ReleaseModel {
            version: self.version@,
            image_len: self.image_len,
            digest: self.digest.0@,
            authorised_at: self.authorised_at,
        }
    }
}

impl Release {
    /// Whether the window is still open at `now`.
    pub fn is_live(&self, now: Tick) -> (r: bool)
        ensures
            r == self@.live(now),
    {
        match now.since(self.authorised_at) {
            Some(since) => since.as_millis() < INSTALL_WINDOW,
            None => false,
        }
    }
}

/// What the controller has authorised: one release or none.
#[derive(Debug, Clone, Copy, PartialEq, Eq)]
pub enum CommsRelease {
    /// Nothing may be installed.
    Nothing,
    /// This, and only this, inside its window.
    Authorised(Release),
}

impl View for CommsRelease {
    type V = Option<ReleaseModel>;

    open spec fn view(&self) -> Option<ReleaseModel> {
        match self {
            CommsRelease::Nothing => None,
            CommsRelease::Authorised(release) => Some(release@),
        }
    }
}

/// Whether an optional release is what was held.
pub open spec fn is_held(r: Option<Release>, held: Option<ReleaseModel>) -> bool {
    match r {
        Some(release) => held == Some(release@),
        None => held is None,
    }
}

impl CommsRelease {
    /// Authorise `release`, replacing whatever was authorised; what was
    /// replaced comes back so both can be logged.
    pub fn authorise(&mut self, release: Release) -> (r: Option<Release>)
        ensures
            final(self)@ == Some(release@),
            is_held(r, old(self)@),
    {
        let replaced = self.take();
        *self = CommsRelease::Authorised(release);
        replaced
    }

    /// Revoke, handing back what was authorised.
    pub fn revoke(&mut self) -> (r: Option<Release>)
        ensures
            final(self)@ is None,
            is_held(r, old(self)@),
    {
        self.take()
    }

    /// The release whose window is open at `now`, if there is one.
    pub fn live(&self, now: Tick) -> (r: Option<&Release>)
        ensures
            match r {
                Some(release) => live_of(self@, now) == Some(release@),
                None => live_of(self@, now) is None,
            },
    {
        match self {
            CommsRelease::Nothing => None,
            CommsRelease::Authorised(release) => if release.is_live(now) {
                Some(release)
            } else {
                None
            },
        }
    }

    /// Whether `digest` is the authorised one and its window is open.
    pub fn admits(&self, digest: &Digest, now: Tick) -> (r: bool)
        ensures
            r == (live_of(self@, now) matches Some(release) && release.digest == digest.0@),
    {
        match self.live(now) {
            Some(release) => same(release.digest.0.as_slice(), digest.0.as_slice()),
            None => false,
        }
    }

    /// As read at boot: the surviving authorisation restarted at this boot's
    /// tick zero.
    pub fn rebased(self) -> (r: Self)
        ensures
            r@ == rebased_of(self@),
    {
        match self {
            CommsRelease::Nothing => CommsRelease::Nothing,
            CommsRelease::Authorised(release) => CommsRelease::Authorised(
                Release {
                    version: release.version,
                    image_len: release.image_len,
                    digest: release.digest,
                    authorised_at: Tick::zero(),
                },
            ),
        }
    }

    /// Take what is authorised, leaving nothing.
    fn take(&mut self) -> (r: Option<Release>)
        ensures
            final(self)@ is None,
            is_held(r, old(self)@),
    {
        let held = *self;
        *self = CommsRelease::Nothing;
        match held {
            CommsRelease::Nothing => None,
            CommsRelease::Authorised(release) => Some(release),
        }
    }
}

impl Body<96> for CommsRelease {
    open spec fn image(v: Option<ReleaseModel>) -> Seq<u8> {
        match v {
            None => padded(seq![0u8], 96),
            Some(release) => padded(release.parts(), 96),
        }
    }

    open spec fn reading(bytes: Seq<u8>) -> Result<Option<ReleaseModel>, Malformed> {
        if bytes[0] == 0 {
            Ok(None)
        } else if bytes[0] != 1 {
            Err(Malformed { at: 0 })
        } else {
            match text_at(bytes, 1, 32) {
                Ok(version) => Ok(
                    Some(
                        ReleaseModel {
                            version,
                            image_len: from_le(bytes.subrange(34, 38)) as u32,
                            digest: bytes.subrange(38, 70),
                            authorised_at: Tick(from_le(bytes.subrange(70, 78)) as u64),
                        },
                    ),
                ),
                Err(m) => Err(m),
            }
        }
    }

    fn encode(&self) -> (r: [u8; 96]) {
        let mut out = [0u8; 96];
        match self {
            CommsRelease::Nothing => {
                proof {
                    assert(out@ =~= padded(seq![0u8], 96));
                }
            },
            CommsRelease::Authorised(release) => {
                out[0] = 1;
                release.version.put(&mut out, 1);
                let mut len: Vec<u8> = Vec::new();
                push_le(&mut len, release.image_len as u64, 4);
                copy_at(&mut out, 34, len.as_slice());
                copy_at(&mut out, 38, release.digest.0.as_slice());
                let mut at: Vec<u8> = Vec::new();
                push_le(&mut at, release.authorised_at.0, 8);
                copy_at(&mut out, 70, at.as_slice());
                proof {
                    assert(release.version@.image().len() == 33) by {
                        release.version.lemma_field_len();
                    }
                    assert(out@ =~= padded(release@.parts(), 96));
                }
            },
        }
        out
    }

    fn decode(bytes: &[u8; 96]) -> (r: Result<Self, Malformed>) {
        let whole = bytes.as_slice();
        let state: u8 = whole[0];
        if state == 0 {
            return Ok(CommsRelease::Nothing);
        }
        if state != 1 {
            return Err(Malformed { at: 0 });
        }
        let version = match Text::<32>::take(whole, 1) {
            Ok(version) => version,
            Err(m) => {
                return Err(m);
            },
        };
        let len = &whole[34..38];
        let image_len: u32 = read_le(len) as u32;
        let digest = body_of::<32>(&whole[38..70]);
        let at = &whole[70..78];
        let authorised_at = Tick::from_millis(read_le(at));
        proof {
            assert(len@ =~= bytes@.subrange(34, 38));
            lemma_from_le_bound(len@);
            lemma_spans();
            assert(digest@ =~= bytes@.subrange(38, 70));
            assert(at@ =~= bytes@.subrange(70, 78));
        }
        Ok(
            CommsRelease::Authorised(
                Release { version, image_len, digest: Digest(digest), authorised_at },
            ),
        )
    }
}

/// An authorisation written down reads back as it was.
pub proof fn law_a_release_reads_back(held: Option<ReleaseModel>)
    requires
        held matches Some(release) ==> release.sound(),
    ensures
        <CommsRelease as Body<96>>::reading(<CommsRelease as Body<96>>::image(held)) == Ok::<
            Option<ReleaseModel>,
            Malformed,
        >(held),
{
    match held {
        None => {},
        Some(release) => {
            let bytes = <CommsRelease as Body<96>>::image(held);
            assert(release.version.image().len() == 33);
            assert(bytes =~= spliced(bytes, 1, release.version.image()));
            law_a_text_reads_back(release.version, 32, bytes, 1);
            assert(bytes.subrange(34, 38) =~= le(release.image_len as nat, 4));
            assert(bytes.subrange(38, 70) =~= release.digest);
            assert(bytes.subrange(70, 78) =~= le(release.authorised_at.0 as nat, 8));
            lemma_spans();
            lemma_le_round_trip(release.image_len as nat, 4);
            lemma_le_round_trip(release.authorised_at.0 as nat, 8);
        },
    }
}

/// An authorisation lives from its moment for ten minutes and not a
/// millisecond longer, and a reboot gives it ten more from the boot's start,
/// never longer.
pub proof fn law_an_authorisation_lapses(release: ReleaseModel, now: Tick)
    ensures
        live_of(Some(release), now) is Some <==> release.authorised_at.0 <= now.0
            < release.authorised_at.0 + 600_000,
        live_of(rebased_of(Some(release)), now) is Some <==> now.0 < 600_000,
        rebased_of(Some(release))->0.digest == release.digest,
        rebased_of(None) is None,
{
}

} // verus!
