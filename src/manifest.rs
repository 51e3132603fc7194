//! Signed manifests: one version bound to one content digest.
//!
//! The text form of a manifest is three parts separated by newlines: the digest
//! as 64 lowercase hex digits, the signature in base64, and the version, which
//! runs to the end of the text and may itself hold any character.

use vstd::prelude::*;
use vstd::utf8::{encode_utf8, is_ascii_chars};
use crate::backend::{
    b64_decode, b64_encode, ed25519_public_key, ed25519_signature, ed25519_verifies, encode_base64,
    is_b64_char, verify_ed25519,
};
use crate::error::Error;
use crate::keys::{base64_text, decode_base64_text, SecretKey};
use crate::version::Version;

verus! {

broadcast use vstd::string::is_ascii_spec_bytes;

/// What a manifest holds.
pub struct ManifestView {
    pub version: Seq<char>,
    pub digest: Seq<u8>,
    pub signature: Seq<u8>,
}

/// The bytes that a signature covers: the version in UTF-8, then the digest.
/// The digest has a fixed length, so the split is never ambiguous.
pub open spec fn signed_message(version: Seq<char>, digest: Seq<u8>) -> Seq<u8> {
    encode_utf8(version) + digest
}

pub open spec fn hex_alphabet() -> Seq<char> {
    seq!['0', '1', '2', '3', '4', '5', '6', '7', '8', '9', 'a', 'b', 'c', 'd', 'e', 'f']
}

/// Lowercase hex, two digits per byte, high digit first.
pub open spec fn hex_of(d: Seq<u8>) -> Seq<char> {
    Seq::new(
        2 * d.len(),
        |i: int|
            if i % 2 == 0 {
                hex_alphabet()[(d[i / 2] / 16) as int]
            } else {
                hex_alphabet()[(d[i / 2] % 16) as int]
            },
    )
}

/// The value of a lowercase hex digit, or -1.
pub open spec fn hex_val(c: char) -> int {
    if '0' <= c && c <= '9' {
        c as int - '0' as int
    } else if 'a' <= c && c <= 'f' {
        c as int - 'a' as int + 10
    } else {
        -1
    }
}

pub open spec fn is_hex_text(h: Seq<char>) -> bool {
    forall|i: int| 0 <= i < h.len() ==> hex_val(#[trigger] h[i]) >= 0
}

/// The bytes that an even-length string of hex digits denotes.
pub open spec fn unhex(h: Seq<char>) -> Seq<u8> {
    Seq::new(h.len() / 2, |i: int| (hex_val(h[2 * i]) * 16 + hex_val(h[2 * i + 1])) as u8)
}

/// The length of the first line of a text, that is the index of its first
/// newline, or the text's length where it has none.
pub open spec fn line_len(s: Seq<char>) -> int
    decreases s.len(),
{
    if s.len() == 0 || s[0] == '\n' {
        0
    } else {
        1 + line_len(s.drop_first())
    }
}

/// The text form of a manifest.
pub open spec fn manifest_text(m: ManifestView) -> Seq<char> {
    hex_of(m.digest) + seq!['\n'] + b64_encode(m.signature) + seq!['\n'] + m.version
}

/// The manifest that a text holds, if it is well formed: 64 hex digits and a
/// newline, a base64 line that decodes to 64 bytes, and a non-empty version.
pub open spec fn manifest_of(t: Seq<char>) -> Option<ManifestView> {
    if t.len() < 65 || t[64] != '\n' || !is_hex_text(t.subrange(0, 64)) {
        None
    } else {
        let rest = t.subrange(65, t.len() as int);
        let j = line_len(rest);
        if j + 1 >= rest.len() {
            None
        } else {
            match base64_text(rest.subrange(0, j)) {
                Some(s) => if s.len() == 64 {
                    Some(
                        ManifestView {
                            version: rest.subrange(j + 1, rest.len() as int),
                            digest: unhex(t.subrange(0, 64)),
                            signature: s,
                        },
                    )
                } else {
                    None
                },
                None => None,
            }
        }
    }
}

/// A manifest whose signature is 64 bytes long.
#[derive(Debug)]
pub struct Manifest {
    version: Version,
    digest: [u8; 32],
    signature: Vec<u8>,
}

impl View for Manifest {
    type V = ManifestView;

    closed spec fn view(&self) -> ManifestView {
        ManifestView { version: self.version@, digest: self.digest@, signature: self.signature@ }
    }
}

/// The bytes that a signature over a version and a digest covers.
pub fn message_bytes(version: &Version, digest: &[u8; 32]) -> (r: Vec<u8>)
    ensures
        r@ == signed_message(version@, digest@),
{
    let mut r = version.as_str().as_bytes_vec();
    let ghost head = r@;
    let mut i: usize = 0;
    while i < 32
        invariant
            i <= 32,
            r@ == head + digest@.subrange(0, i as int),
        decreases 32 - i,
    {
        r.push(digest[i]);
        proof {
            assert(digest@.subrange(0, i + 1) =~= digest@.subrange(0, i as int).push(digest@[i as int]));
        }
        i += 1;
    }
    proof {
        assert(digest@.subrange(0, 32) =~= digest@);
    }
    r
}

fn hex_digit_str(n: u8) -> (r: &'static str)
    requires
        n < 16,
    ensures
        r@ == seq![hex_alphabet()[n as int]],
{
    let table = "0123456789abcdef";
    proof {
        reveal_strlit("0123456789abcdef");
        assert(table@ =~= hex_alphabet());
    }
    let r = table.substring_char(n as usize, n as usize + 1);
    proof {
        assert(r@ =~= seq![hex_alphabet()[n as int]]);
    }
    r
}

/// Lowercase hex of some bytes.
pub fn hex_string(bytes: &[u8]) -> (r: String)
    ensures
        r@ == hex_of(bytes@),
{
    let mut r = String::new();
    let mut i: usize = 0;
    while i < bytes.len()
        invariant
            i <= bytes@.len(),
            r@ == hex_of(bytes@).subrange(0, 2 * i),
        decreases bytes@.len() - i,
    {
        let b = bytes[i];
        r.append(hex_digit_str(b / 16));
        r.append(hex_digit_str(b % 16));
        proof {
            assert(hex_of(bytes@).subrange(0, 2 * i + 2) =~= hex_of(bytes@).subrange(0, 2 * i) + seq![
                hex_alphabet()[(b / 16) as int],
            ] + seq![hex_alphabet()[(b % 16) as int]]);
        }
        i += 1;
    }
    proof {
        assert(hex_of(bytes@).subrange(0, 2 * bytes@.len() as int) =~= hex_of(bytes@));
    }
    r
}

fn hex_value(c: char) -> (r: i8)
    ensures
        r as int == hex_val(c),
{
    if '0' <= c && c <= '9' {
        (c as u32 - '0' as u32) as i8
    } else if 'a' <= c && c <= 'f' {
        (c as u32 - 'a' as u32 + 10) as i8
    } else {
        -1
    }
}

proof fn lemma_hex_digits()
    ensures
        forall|k: int| 0 <= k < 16 ==> hex_val(#[trigger] hex_alphabet()[k]) == k,
{
    assert forall|k: int| 0 <= k < 16 implies hex_val(#[trigger] hex_alphabet()[k]) == k by {
        assert(hex_alphabet()[0] == '0');
        assert(hex_alphabet()[10] == 'a');
    }
}

proof fn lemma_unhex_hex(d: Seq<u8>)
    ensures
        is_hex_text(hex_of(d)),
        unhex(hex_of(d)) == d,
{
    lemma_hex_digits();
    let h = hex_of(d);
    assert forall|i: int| 0 <= i < h.len() implies hex_val(#[trigger] h[i]) >= 0 by {
        let b = d[i / 2];
        assert(0 <= b / 16 < 16);
        assert(0 <= b % 16 < 16);
    }
    assert forall|i: int| 0 <= i < d.len() implies #[trigger] unhex(h)[i] == d[i] by {
        assert((2 * i) / 2 == i);
        assert((2 * i + 1) / 2 == i);
        assert((2 * i) % 2 == 0);
        assert((2 * i + 1) % 2 == 1);
        let b = d[i];
        assert(hex_val(h[2 * i]) == (b / 16) as int);
        assert(hex_val(h[2 * i + 1]) == (b % 16) as int);
        assert((b / 16) as int * 16 + (b % 16) as int == b as int);
    }
    assert(unhex(h) =~= d);
}

proof fn lemma_line_len(a: Seq<char>, b: Seq<char>)
    requires
        forall|i: int| 0 <= i < a.len() ==> a[i] != '\n',
    ensures
        line_len(a + seq!['\n'] + b) == a.len(),
    decreases a.len(),
{
    if a.len() > 0 {
        assert((a + seq!['\n'] + b).drop_first() =~= a.drop_first() + seq!['\n'] + b);
        lemma_line_len(a.drop_first(), b);
    } else {
        assert((a + seq!['\n'] + b)[0] == '\n');
    }
}

/// The prefix of `s` that stops at its first newline, where every earlier
/// character is not a newline.
proof fn lemma_line_len_scan(s: Seq<char>, j: int)
    requires
        0 <= j <= s.len(),
        forall|i: int| 0 <= i < j ==> s[i] != '\n',
        j == s.len() || s[j] == '\n',
    ensures
        line_len(s) == j,
    decreases j,
{
    if j > 0 {
        lemma_line_len_scan(s.drop_first(), j - 1);
    }
}

impl Manifest {
    #[verifier::type_invariant]
    spec fn inv(self) -> bool {
        self.signature@.len() == 64
    }

    /// The version that the manifest binds.
    pub fn version(&self) -> (r: &Version)
        ensures
            r@ == self@.version,
    {
        &self.version
    }

    /// The digest that the manifest binds.
    pub fn digest(&self) -> (r: [u8; 32])
        ensures
            r@ == self@.digest,
    {
        self.digest
    }

    /// The signature bytes.
    pub fn signature(&self) -> (r: &[u8])
        ensures
            r@ == self@.signature,
            r@.len() == 64,
    {
        proof {
            use_type_invariant(self);
        }
        self.signature.as_slice()
    }

    pub fn clone(&self) -> (r: Manifest)
        ensures
            r@ == self@,
    {
        proof {
            use_type_invariant(self);
        }
        Manifest {
            version: self.version.clone(),
            digest: self.digest,
            signature: vstd::slice::slice_to_vec(self.signature.as_slice()),
        }
    }

    /// Signs a version and a digest. The manifest verifies under the public
    /// key of the secret key.
    pub fn sign(version: &Version, digest: &[u8; 32], key: &SecretKey) -> (r: Manifest)
        ensures
            r@ == (ManifestView {
                version: version@,
                digest: digest@,
                signature: ed25519_signature(key@, signed_message(version@, digest@)),
            }),
            signature_valid(r@, ed25519_public_key(key@)),
    {
        let msg = message_bytes(version, digest);
        let signature = key.sign(msg.as_slice());
        Manifest { version: version.clone(), digest: *digest, signature }
    }

    /// Checks the signature against a public key. Every cause of failure gives
    /// the same error.
    pub fn verify(&self, public_key: &[u8; 32]) -> (r: Result<(), Error>)
        ensures
            r.is_ok() == signature_valid(self@, public_key@),
            r matches Err(e) ==> e == Error::InvalidSignature,
    {
        let msg = message_bytes(&self.version, &self.digest);
        if verify_ed25519(public_key, msg.as_slice(), self.signature.as_slice()) {
            Ok(())
        } else {
            Err(Error::InvalidSignature)
        }
    }

    /// The text form of the manifest, which parses back to the same manifest.
    pub fn serialize(&self) -> (r: String)
        ensures
            r@ == manifest_text(self@),
            manifest_of(r@) == Some(self@),
    {
        proof {
            use_type_invariant(self);
        }
        let mut r = hex_string(&self.digest);
        let sig = encode_base64(self.signature.as_slice());
        proof {
            reveal_strlit("\n");
        }
        r.append("\n");
        r.append(sig.as_str());
        r.append("\n");
        r.append(self.version.as_str());
        proof {
            let m = self@;
            assert(hex_of(m.digest).subrange(0, 64) =~= hex_of(m.digest));
            let t = r@;
            let h = hex_of(m.digest);
            let b = b64_encode(m.signature);
            assert(t =~= h + seq!['\n'] + b + seq!['\n'] + m.version);
            assert(t.subrange(0, 64) =~= h);
            lemma_unhex_hex(m.digest);
            let rest = t.subrange(65, t.len() as int);
            assert(rest =~= b + seq!['\n'] + m.version);
            assert forall|k: int| 0 <= k < b.len() implies b[k] != '\n' by {
                assert(is_b64_char(b[k]));
            }
            lemma_line_len(b, m.version);
            assert(rest.subrange(0, b.len() as int) =~= b);
            assert(rest.subrange(b.len() as int + 1, rest.len() as int) =~= m.version);
            assert(is_ascii_chars(b)) by {
                assert forall|k: int| 0 <= k < b.len() implies '\0' <= #[trigger] b[k] <= '\u{7f}' by {
                    assert(is_b64_char(b[k]));
                }
            }
            assert(m.version.len() > 0);
        }
        r
    }
}

/// Parses the text form of a manifest. Structural problems are reported here,
/// before any signature is looked at.
pub fn parse_manifest(t: &str) -> (r: Result<Manifest, Error>)
    ensures
        r.is_ok() == manifest_of(t@).is_some(),
        r matches Ok(m) ==> manifest_of(t@) == Some(m@),
        r matches Err(e) ==> e is InvalidManifest,
{
    let n = t.unicode_len();
    if n < 65 || t.get_char(64) != '\n' {
        return Err(Error::InvalidManifest("The first line is not a 64-digit hex digest."));
    }
    let ghost h = t@.subrange(0, 64);
    let mut digest = [0u8; 32];
    let mut k: usize = 0;
    while k < 32
        invariant
            n == t@.len(),
            n >= 65,
            h == t@.subrange(0, 64),
            k <= 32,
            forall|i: int| 0 <= i < 2 * k ==> hex_val(#[trigger] h[i]) >= 0,
            forall|i: int| 0 <= i < k ==> digest@[i] == #[trigger] unhex(h)[i],
        decreases 32 - k,
    {
        let hi = hex_value(t.get_char(2 * k));
        let lo = hex_value(t.get_char(2 * k + 1));
        if hi < 0 || lo < 0 {
            proof {
                if hi < 0 {
                    assert(hex_val(h[2 * k as int]) < 0);
                } else {
                    assert(hex_val(h[2 * k + 1]) < 0);
                }
            }
            return Err(Error::InvalidManifest("The first line is not a 64-digit hex digest."));
        }
        digest[k] = (hi as u8) * 16 + (lo as u8);
        proof {
            assert(hex_val(h[2 * k as int]) >= 0);
            assert(hex_val(h[2 * k + 1]) >= 0);
        }
        k += 1;
    }
    proof {
        assert(is_hex_text(h));
        assert(unhex(h) =~= digest@);
    }
    let mut j: usize = 65;
    while j < n && t.get_char(j) != '\n'
        invariant
            n == t@.len(),
            65 <= j <= n,
            forall|i: int| 65 <= i < j ==> t@[i] != '\n',
        decreases n - j,
    {
        j += 1;
    }
    let ghost rest = t@.subrange(65, n as int);
    proof {
        lemma_line_len_scan(rest, j - 65);
    }
    if j >= n - 1 {
        return Err(Error::InvalidManifest("The version line is missing or empty."));
    }
    let b = t.substring_char(65, j);
    proof {
        assert(b@ =~= rest.subrange(0, j - 65));
    }
    match decode_base64_text(b) {
        None => Err(Error::InvalidManifest("The signature line is not valid base64.")),
        Some(sig) => {
            if sig.len() != 64 {
                return Err(Error::InvalidManifest("The signature is not 64 bytes."));
            }
            let vtext = t.substring_char(j + 1, n);
            proof {
                assert(vtext@ =~= rest.subrange(j - 65 + 1, rest.len() as int));
            }
            match Version::parse(vtext) {
                Ok(v) => Ok(Manifest { version: v, digest, signature: sig }),
                Err(_) => Err(Error::InvalidManifest("The version line is missing or empty.")),
            }
        },
    }
}

/// Whether a manifest's signature verifies under a public key.
pub open spec fn signature_valid(m: ManifestView, public_key: Seq<u8>) -> bool {
    ed25519_verifies(public_key, signed_message(m.version, m.digest), m.signature)
}

} // verus!
