//! Errors that Tako can encounter.

use vstd::prelude::*;

verus! {

/// The failure kinds of the engine.
#[derive(Debug)]
pub enum Error {
    /// A version string is empty.
    MalformedVersion,
    /// Error in a config file on a given line (zero-based).
    InvalidConfig(usize, &'static str),
    /// A key is missing in the config.
    IncompleteConfig(&'static str),
    /// The origin on a given config line is not a valid URI.
    InvalidUri(usize),
    /// The public key on a given config line is not valid base64.
    InvalidPublicKeyData(usize),
    /// A secret key could not be decoded, or the decoded key is invalid.
    InvalidSecretKeyData,
    /// A manifest is structurally broken.
    InvalidManifest(&'static str),
    /// Signature verification failed.
    InvalidSignature,
    /// Downloaded content does not match the digest of its manifest.
    DigestMismatch,
    /// A version already exists with another digest, or collides by separators.
    Duplicate(crate::version::Version),
    /// Generating a key pair failed in the random number source.
    KeyGenerationFailed,
    /// An operational error occurred.
    OperationError(&'static str),
    /// Fetching remote bytes failed.
    DownloadError(String),
    /// A filesystem operation failed.
    IoError(String),
}

} // verus!
