//! The calls into ring, base64 and hyper that the engine relies on, with
//! what each is trusted to do.

use vstd::prelude::*;
use vstd::string::StringSliceAdditionalSpecFns;
use ring::signature::KeyPair;
use std::str::FromStr;

verus! {

/// Whether ring accepts the bytes as a PKCS#8 v2 Ed25519 key.
pub uninterp spec fn pkcs8_valid(pkcs8: Seq<u8>) -> bool;

/// The public key of a PKCS#8 Ed25519 key, as ring derives it.
pub uninterp spec fn ed25519_public_key(pkcs8: Seq<u8>) -> Seq<u8>;

/// The Ed25519 signature of a message under a PKCS#8 key, as ring computes it.
pub uninterp spec fn ed25519_signature(pkcs8: Seq<u8>, msg: Seq<u8>) -> Seq<u8>;

/// Whether ring accepts a signature of a message under a public key.
pub uninterp spec fn ed25519_verifies(public_key: Seq<u8>, msg: Seq<u8>, sig: Seq<u8>) -> bool;

/// The SHA-256 digest of some bytes.
pub uninterp spec fn sha256_of(data: Seq<u8>) -> Seq<u8>;

/// The standard padded base64 encoding of some bytes.
pub uninterp spec fn b64_encode(b: Seq<u8>) -> Seq<char>;

/// The bytes that a text decodes to as standard base64, if it is valid.
pub uninterp spec fn b64_decode(s: Seq<char>) -> Option<Seq<u8>>;

/// Whether hyper parses the text as a URI.
pub uninterp spec fn uri_valid(s: Seq<char>) -> bool;

/// A character of the standard base64 alphabet, or the padding character.
pub open spec fn is_b64_char(c: char) -> bool {
    ('A' <= c && c <= 'Z') || ('a' <= c && c <= 'z') || ('0' <= c && c <= '9') || c == '+' || c == '/'
        || c == '='
}

/// Relies on ring's `Ed25519KeyPair::from_pkcs8`, which accepts or rejects the
/// bytes, and on `KeyPair::public_key`, which gives the 32-byte public key.
#[verifier::external_body]
pub(crate) fn public_key_of_pkcs8(pkcs8: &[u8]) -> (r: Option<Vec<u8>>)
    ensures
        r.is_some() == pkcs8_valid(pkcs8@),
        r matches Some(p) ==> p@ == ed25519_public_key(pkcs8@) && p@.len() == 32,
{
    match ring::signature::Ed25519KeyPair::from_pkcs8(pkcs8) {
        Ok(k) => Some(k.public_key().as_ref().to_vec()),
        Err(_) => None,
    }
}

/// Relies on ring's `Ed25519KeyPair::sign`: a 64-byte signature that verifies
/// under the key pair's own public key.
#[verifier::external_body]
pub(crate) fn sign_with_pkcs8(pkcs8: &[u8], msg: &[u8]) -> (r: Vec<u8>)
    requires
        pkcs8_valid(pkcs8@),
    ensures
        r@ == ed25519_signature(pkcs8@, msg@),
        r@.len() == 64,
        ed25519_verifies(ed25519_public_key(pkcs8@), msg@, r@),
{
    match ring::signature::Ed25519KeyPair::from_pkcs8(pkcs8) {
        Ok(k) => k.sign(msg).as_ref().to_vec(),
        Err(_) => Vec::new(),
    }
}

/// Relies on ring's `UnparsedPublicKey::verify` with the Ed25519 algorithm.
#[verifier::external_body]
pub(crate) fn verify_ed25519(public_key: &[u8], msg: &[u8], sig: &[u8]) -> (r: bool)
    ensures
        r == ed25519_verifies(public_key@, msg@, sig@),
{
    ring::signature::UnparsedPublicKey::new(&ring::signature::ED25519, public_key).verify(msg, sig).is_ok()
}

/// Relies on ring's `Ed25519KeyPair::generate_pkcs8` over the system's random
/// source. The key is random; ring documents it as a PKCS#8 v2 document,
/// which `Ed25519KeyPair::from_pkcs8` accepts.
#[verifier::external_body]
pub(crate) fn generate_pkcs8() -> (r: Option<Vec<u8>>)
    ensures
        r matches Some(b) ==> pkcs8_valid(b@),
{
    let rng = ring::rand::SystemRandom::new();
    match ring::signature::Ed25519KeyPair::generate_pkcs8(&rng) {
        Ok(doc) => Some(doc.as_ref().to_vec()),
        Err(_) => None,
    }
}

/// Relies on ring's `digest::digest` with SHA-256, which gives 32 bytes.
#[verifier::external_body]
pub(crate) fn sha256(data: &[u8]) -> (r: [u8; 32])
    ensures
        r@ == sha256_of(data@),
{
    let d = ring::digest::digest(&ring::digest::SHA256, data);
    let mut r = [0u8; 32];
    r.copy_from_slice(d.as_ref());
    r
}

/// Relies on `base64::encode`: standard alphabet with padding, which
/// `base64::decode` turns back into the same bytes.
#[verifier::external_body]
pub(crate) fn encode_base64(b: &[u8]) -> (r: String)
    requires
        b@.len() <= usize::MAX / 2,
    ensures
        r@ == b64_encode(b@),
        r@.len() == 4 * ((b@.len() + 2) / 3),
        b64_decode(r@) == Some(b@),
        forall|i: int| 0 <= i < r@.len() ==> is_b64_char(#[trigger] r@[i]),
{
    base64::encode(b)
}

/// Relies on `base64::decode` with the standard alphabet.
#[verifier::external_body]
pub(crate) fn decode_base64(s: &str) -> (r: Option<Vec<u8>>)
    requires
        s.spec_bytes().len() + 3 <= usize::MAX,
    ensures
        r.is_some() == b64_decode(s@).is_some(),
        r matches Some(v) ==> b64_decode(s@) == Some(v@),
{
    base64::decode(s).ok()
}

/// Relies on `hyper::Uri::from_str`, which accepts or rejects the text.
#[verifier::external_body]
pub(crate) fn uri_parses(s: &str) -> (r: bool)
    ensures
        r == uri_valid(s@),
{
    hyper::Uri::from_str(s).is_ok()
}

} // verus!
