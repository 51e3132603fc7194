//! The publish plan for a server directory: which manifests and blobs a new
//! version adds, and when a version is refused.

use vstd::prelude::*;
use crate::backend::ed25519_signature;
use crate::error::Error;
use crate::keys::SecretKey;
use crate::manifest::{signed_message, Manifest, ManifestView};
use crate::version::{collides, Version};

verus! {

/// What a server directory holds: its manifests, and the digests of its blobs.
pub struct IndexView {
    pub manifests: Seq<ManifestView>,
    pub blobs: Seq<Seq<u8>>,
}

pub enum PublishKind {
    Stored,
    AlreadyStored,
    Duplicate,
}

/// A version that the directory refuses with a given digest: one that collides
/// with a stored version, or is stored with another digest.
pub open spec fn conflicts(ms: Seq<ManifestView>, v: Seq<char>, d: Seq<u8>) -> bool {
    exists|i: int|
        0 <= i < ms.len() && (collides(#[trigger] ms[i].version, v) || (ms[i].version == v
            && ms[i].digest != d))
}

/// The version is stored already, with this digest.
pub open spec fn already_stored(ms: Seq<ManifestView>, v: Seq<char>, d: Seq<u8>) -> bool {
    exists|i: int| 0 <= i < ms.len() && #[trigger] ms[i].version == v && ms[i].digest == d
}

/// The directory after publishing a version with a digest and a signature, and
/// the kind of outcome.
pub open spec fn publish_view(s: IndexView, v: Seq<char>, d: Seq<u8>, sig: Seq<u8>) -> (IndexView, PublishKind) {
    if conflicts(s.manifests, v, d) {
        (s, PublishKind::Duplicate)
    } else if already_stored(s.manifests, v, d) {
        (s, PublishKind::AlreadyStored)
    } else {
        (
            IndexView {
                manifests: s.manifests.push(ManifestView { version: v, digest: d, signature: sig }),
                blobs: if s.blobs.contains(d) { s.blobs } else { s.blobs.push(d) },
            },
            PublishKind::Stored,
        )
    }
}

/// Publishing a version a second time with the same digest changes nothing
/// and succeeds.
pub proof fn lemma_publish_idempotent(s: IndexView, v: Seq<char>, d: Seq<u8>, sig: Seq<u8>, sig2: Seq<u8>)
    requires
        publish_view(s, v, d, sig).1 != PublishKind::Duplicate,
    ensures
        ({
            let s1 = publish_view(s, v, d, sig).0;
            publish_view(s1, v, d, sig2) == (s1, PublishKind::AlreadyStored)
        }),
{
    let s1 = publish_view(s, v, d, sig).0;
    if !already_stored(s.manifests, v, d) {
        let k = s.manifests.len() as int;
        assert(s1.manifests[k].version == v && s1.manifests[k].digest == d);
        assert(already_stored(s1.manifests, v, d));
        assert(!conflicts(s1.manifests, v, d)) by {
            if conflicts(s1.manifests, v, d) {
                let i = choose|i: int|
                    0 <= i < s1.manifests.len() && (collides(#[trigger] s1.manifests[i].version, v) || (
                    s1.manifests[i].version == v && s1.manifests[i].digest != d));
                if i < k {
                    assert(s.manifests[i] == s1.manifests[i]);
                }
            }
        }
    }
}

/// Once a version is stored with one digest, publishing it with another digest
/// is refused as a duplicate and changes nothing.
pub proof fn lemma_publish_other_digest(
    s: IndexView,
    v: Seq<char>,
    d: Seq<u8>,
    d2: Seq<u8>,
    sig: Seq<u8>,
    sig2: Seq<u8>,
)
    requires
        publish_view(s, v, d, sig).1 != PublishKind::Duplicate,
        d2 != d,
    ensures
        ({
            let s1 = publish_view(s, v, d, sig).0;
            publish_view(s1, v, d2, sig2) == (s1, PublishKind::Duplicate)
        }),
{
    let s1 = publish_view(s, v, d, sig).0;
    if already_stored(s.manifests, v, d) {
        let i = choose|i: int| 0 <= i < s.manifests.len() && #[trigger] s.manifests[i].version == v && s.manifests[i].digest == d;
        assert(conflicts(s1.manifests, v, d2));
    } else {
        let k = s.manifests.len() as int;
        assert(s1.manifests[k].version == v && s1.manifests[k].digest == d);
        assert(conflicts(s1.manifests, v, d2));
    }
}

/// Publishing with the signature that a secret key makes.
pub open spec fn publish_signed(s: IndexView, v: Seq<char>, d: Seq<u8>, key: Seq<u8>) -> (IndexView, PublishKind) {
    publish_view(s, v, d, ed25519_signature(key, signed_message(v, d)))
}

/// With `1.0` stored, publishing `1-0` is refused as a duplicate, whatever its
/// digest, and changes nothing.
pub proof fn lemma_collision_refused_example(s: IndexView, i: int, d: Seq<u8>, sig: Seq<u8>)
    requires
        0 <= i < s.manifests.len(),
        s.manifests[i].version == "1.0"@,
    ensures
        publish_view(s, "1-0"@, d, sig) == (s, PublishKind::Duplicate),
{
    crate::version::lemma_version_examples();
    assert(collides(s.manifests[i].version, "1-0"@));
}

/// What publishing asks of the server directory.
pub enum PublishOutcome {
    /// Write this manifest, and the blob too where `new_blob` holds.
    Stored { manifest: Manifest, new_blob: bool },
    /// The version is there already with the same digest: write nothing.
    AlreadyStored,
}

/// The manifests and blob digests of a server directory.
pub struct ServerIndex {
    manifests: Vec<Manifest>,
    blobs: Vec<[u8; 32]>,
}

pub open spec fn manifest_views(ms: Seq<Manifest>) -> Seq<ManifestView> {
    Seq::new(ms.len(), |i: int| ms[i]@)
}

pub open spec fn digest_views(bs: Seq<[u8; 32]>) -> Seq<Seq<u8>> {
    Seq::new(bs.len(), |i: int| bs[i]@)
}

impl View for ServerIndex {
    type V = IndexView;

    closed spec fn view(&self) -> IndexView {
        IndexView { manifests: manifest_views(self.manifests@), blobs: digest_views(self.blobs@) }
    }
}

fn digest_eq(a: &[u8; 32], b: &[u8; 32]) -> (r: bool)
    ensures
        r == (a@ == b@),
{
    let mut i: usize = 0;
    while i < 32
        invariant
            i <= 32,
            forall|k: int| 0 <= k < i ==> a@[k] == b@[k],
        decreases 32 - i,
    {
        if a[i] != b[i] {
            return false;
        }
        i += 1;
    }
    proof {
        assert(a@ =~= b@);
    }
    true
}

impl ServerIndex {
    /// A directory that holds the given manifests and blobs.
    pub fn new(manifests: Vec<Manifest>, blobs: Vec<[u8; 32]>) -> (r: ServerIndex)
        ensures
            r@ == (IndexView { manifests: manifest_views(manifests@), blobs: digest_views(blobs@) }),
    {
        ServerIndex { manifests, blobs }
    }

    /// The number of manifests.
    pub fn len(&self) -> (r: usize)
        ensures
            r == self@.manifests.len(),
    {
        self.manifests.len()
    }

    /// Publishes a version with the digest of its image, signed with a secret
    /// key. A version that collides with a stored one, or is stored with
    /// another digest, is refused with `Duplicate` and nothing changes.
    pub fn publish(&mut self, version: &Version, digest: &[u8; 32], key: &SecretKey) -> (r: Result<PublishOutcome, Error>)
        ensures
            final(self)@ == publish_signed(old(self)@, version@, digest@, key@).0,
            publish_signed(old(self)@, version@, digest@, key@).1 == PublishKind::Duplicate <==> r is Err,
            publish_signed(old(self)@, version@, digest@, key@).1 == PublishKind::AlreadyStored <==> r matches Ok(
                PublishOutcome::AlreadyStored,
            ),
            r matches Err(e) ==> (e matches Error::Duplicate(v) && v@ == version@),
            r matches Ok(PublishOutcome::Stored { manifest, new_blob }) ==> manifest@ == final(self)@.manifests.last()
                && new_blob == !old(self)@.blobs.contains(digest@),
    {
        let ghost ms = old(self)@.manifests;
        let mut stored = false;
        let mut i: usize = 0;
        while i < self.manifests.len()
            invariant
                self@ == old(self)@,
                ms == self@.manifests,
                i <= ms.len(),
                forall|k: int| 0 <= k < i ==> !(collides(#[trigger] ms[k].version, version@) || (ms[k].version == version@
                    && ms[k].digest != digest@)),
                stored <==> exists|k: int| 0 <= k < i && #[trigger] ms[k].version == version@ && ms[k].digest == digest@,
            decreases ms.len() - i,
        {
            let m = &self.manifests[i];
            let ghost mv = ms[i as int];
            assert(mv == m@);
            let same_version = m.version().same_as(version);
            let collision = m.version().collides_with(version);
            let same_digest = digest_eq(&m.digest(), digest);
            if collision || (same_version && !same_digest) {
                return Err(Error::Duplicate(version.clone()));
            }
            if same_version && same_digest {
                stored = true;
            }
            i += 1;
        }
        if stored {
            return Ok(PublishOutcome::AlreadyStored);
        }
        let mut have_blob = false;
        let mut j: usize = 0;
        let ghost bs = self@.blobs;
        while j < self.blobs.len()
            invariant
                self@ == old(self)@,
                bs == self@.blobs,
                j <= bs.len(),
                have_blob <==> exists|k: int| 0 <= k < j && #[trigger] bs[k] == digest@,
            decreases bs.len() - j,
        {
            let ghost b = bs[j as int];
            assert(b == self.blobs[j as int]@);
            if digest_eq(&self.blobs[j], digest) {
                have_blob = true;
            }
            j += 1;
        }
        let manifest = Manifest::sign(version, digest, key);
        let copy = manifest.clone();
        let ghost old_ms = self.manifests@;
        let ghost old_bs = self.blobs@;
        self.manifests.push(copy);
        if !have_blob {
            self.blobs.push(*digest);
        }
        proof {
            assert(manifest_views(self.manifests@) =~= manifest_views(old_ms).push(manifest@));
            if !have_blob {
                assert(digest_views(self.blobs@) =~= digest_views(old_bs).push(digest@));
            } else {
                assert(digest_views(self.blobs@) =~= digest_views(old_bs));
            }
        }
        Ok(PublishOutcome::Stored { manifest, new_blob: !have_blob })
    }
}

} // verus!
