//! Ed25519 key material: decoding, public keys and generation.

use vstd::prelude::*;
use vstd::string::StringSliceAdditionalSpecFns;
use vstd::utf8::is_ascii_chars;
use crate::backend::{
    b64_decode, b64_encode, decode_base64, encode_base64, is_b64_char, ed25519_public_key, ed25519_signature, ed25519_verifies,
    sign_with_pkcs8, generate_pkcs8, pkcs8_valid,
    public_key_of_pkcs8,
};
use crate::error::Error;

verus! {

broadcast use vstd::string::is_ascii_spec_bytes;

/// The bytes that a text decodes to as base64. Text that is not ASCII is
/// never base64, and is refused before any decoding.
pub open spec fn base64_text(t: Seq<char>) -> Option<Seq<u8>> {
    if is_ascii_chars(t) && t.len() + 3 <= usize::MAX {
        b64_decode(t)
    } else {
        None
    }
}

/// Decodes base64 text.
pub fn decode_base64_text(t: &str) -> (r: Option<Vec<u8>>)
    ensures
        r.is_some() == base64_text(t@).is_some(),
        r matches Some(v) ==> base64_text(t@) == Some(v@),
{
    if !t.is_ascii() {
        return None;
    }
    let n = t.unicode_len();
    if n > usize::MAX - 3 {
        return None;
    }
    decode_base64(t)
}

/// PKCS#8 bytes that ring accepts as an Ed25519 key, short enough to be
/// written back as base64.
pub open spec fn usable_pkcs8(b: Seq<u8>) -> bool {
    pkcs8_valid(b) && b.len() <= usize::MAX / 2
}

/// The secret key that a base64 text holds, if it is a valid PKCS#8 Ed25519 key.
pub open spec fn secret_key_of(t: Seq<char>) -> Option<Seq<u8>> {
    match base64_text(t) {
        Some(b) => if usable_pkcs8(b) { Some(b) } else { None },
        None => None,
    }
}

/// An Ed25519 secret key in PKCS#8 form that ring accepts.
pub struct SecretKey {
    pkcs8: Vec<u8>,
}

impl View for SecretKey {
    type V = Seq<u8>;

    closed spec fn view(&self) -> Seq<u8> {
        self.pkcs8@
    }
}

impl SecretKey {
    #[verifier::type_invariant]
    spec fn inv(self) -> bool {
        usable_pkcs8(self.pkcs8@)
    }

    /// Signs a message with this key. The signature verifies under the key's
    /// own public key.
    pub fn sign(&self, msg: &[u8]) -> (r: Vec<u8>)
        ensures
            r@ == ed25519_signature(self@, msg@),
            r@.len() == 64,
            ed25519_verifies(ed25519_public_key(self@), msg@, r@),
    {
        proof {
            use_type_invariant(self);
        }
        sign_with_pkcs8(self.pkcs8.as_slice(), msg)
    }

    /// The PKCS#8 bytes of the key.
    pub fn as_bytes(&self) -> (r: &[u8])
        ensures
            r@ == self@,
    {
        self.pkcs8.as_slice()
    }

    /// The 32-byte public key that belongs to this secret key.
    pub fn public_key(&self) -> (r: [u8; 32])
        ensures
            r@ == ed25519_public_key(self@),
    {
        proof {
            use_type_invariant(self);
        }
        match public_key_of_pkcs8(self.pkcs8.as_slice()) {
            Some(p) => to_array32(&p),
            None => [0u8; 32],
        }
    }
}

/// Copies 32 bytes into an array.
pub fn to_array32(v: &Vec<u8>) -> (r: [u8; 32])
    requires
        v@.len() == 32,
    ensures
        r@ == v@,
{
    let mut r = [0u8; 32];
    let mut i: usize = 0;
    while i < 32
        invariant
            v@.len() == 32,
            i <= 32,
            forall|k: int| 0 <= k < i ==> r@[k] == v@[k],
        decreases 32 - i,
    {
        r[i] = v[i];
        i += 1;
    }
    proof {
        assert(r@ =~= v@);
    }
    r
}

/// Decodes a base64 PKCS#8 secret key. Every cause of failure gives the same
/// error.
pub fn decode_secret(text: &str) -> (r: Result<SecretKey, Error>)
    ensures
        r.is_ok() == secret_key_of(text@).is_some(),
        r matches Ok(k) ==> secret_key_of(text@) == Some(k@),
        r matches Err(e) ==> e == Error::InvalidSecretKeyData,
{
    match decode_base64_text(text) {
        Some(b) => {
            if b.len() > usize::MAX / 2 {
                return Err(Error::InvalidSecretKeyData);
            }
            match public_key_of_pkcs8(b.as_slice()) {
                Some(_) => Ok(SecretKey { pkcs8: b }),
                None => Err(Error::InvalidSecretKeyData),
            }
        },
        None => Err(Error::InvalidSecretKeyData),
    }
}

/// A secret key and its public key.
pub struct KeyPair {
    pub secret: SecretKey,
    pub public: [u8; 32],
}

impl KeyPair {
    /// The secret key and the public key in base64, as they are handed to a
    /// user.
    pub fn to_base64(&self) -> (r: (String, String))
        ensures
            r.0@ == b64_encode(self.secret@),
            r.1@ == b64_encode(self.public@),
            b64_decode(r.0@) == Some(self.secret@),
            b64_decode(r.1@) == Some(self.public@),
            secret_key_of(r.0@) == Some(self.secret@),
    {
        proof {
            use_type_invariant(&self.secret);
        }
        let secret = encode_base64(self.secret.pkcs8.as_slice());
        let public = encode_base64(&self.public);
        proof {
            let n = self.secret@.len();
            assert(secret@.len() + 3 <= usize::MAX) by (nonlinear_arith)
                requires
                    secret@.len() == 4 * ((n + 2) / 3),
                    n <= usize::MAX / 2,
            ;
            assert(is_ascii_chars(secret@)) by {
                assert forall|k: int| 0 <= k < secret@.len() implies '\0' <= #[trigger] secret@[k] <= '\u{7f}' by {
                    assert(is_b64_char(secret@[k]));
                }
            }
        }
        (secret, public)
    }
}

/// The key pair of PKCS#8 bytes, if ring accepts them as an Ed25519 key.
pub fn key_pair_from_pkcs8(pkcs8: Vec<u8>) -> (r: Result<KeyPair, Error>)
    ensures
        r is Ok <==> usable_pkcs8(pkcs8@),
        r matches Ok(kp) ==> kp.secret@ == pkcs8@ && kp.public@ == ed25519_public_key(pkcs8@),
        r matches Err(e) ==> e == Error::KeyGenerationFailed,
{
    if pkcs8.len() > usize::MAX / 2 {
        return Err(Error::KeyGenerationFailed);
    }
    match public_key_of_pkcs8(pkcs8.as_slice()) {
        Some(p) => Ok(KeyPair { secret: SecretKey { pkcs8 }, public: to_array32(&p) }),
        None => Err(Error::KeyGenerationFailed),
    }
}

/// Generates a new key pair from the system's random source; only a failure
/// of that source gives an error.
pub fn generate() -> (r: Result<KeyPair, Error>)
    ensures
        r matches Ok(kp) ==> kp.public@ == ed25519_public_key(kp.secret@),
        r matches Err(e) ==> e == Error::KeyGenerationFailed,
{
    match generate_pkcs8() {
        Some(b) => key_pair_from_pkcs8(b),
        None => Err(Error::KeyGenerationFailed),
    }
}

} // verus!
