//! Where manifests and blobs live inside a server directory: a manifest under
//! the hex of its version's UTF-8 bytes, a blob under the hex of its digest,
//! so that both names are deterministic and safe as file names.

use vstd::prelude::*;
use vstd::utf8::encode_utf8;
use crate::manifest::{hex_of, hex_string};
use crate::version::Version;

verus! {

/// The directory of the manifests, and of the index that lists them.
pub const MANIFEST_DIR: &'static str = "manifests";

/// The directory of the blobs.
pub const BLOB_DIR: &'static str = "store";

/// The file name of a version's manifest.
pub open spec fn manifest_name(version: Seq<char>) -> Seq<char> {
    hex_of(encode_utf8(version))
}

/// The file name of a blob.
pub open spec fn blob_name(digest: Seq<u8>) -> Seq<char> {
    hex_of(digest)
}

/// The file name of a version's manifest inside the manifest directory.
pub fn manifest_file_name(version: &Version) -> (r: String)
    ensures
        r@ == manifest_name(version@),
{
    let bytes = version.as_str().as_bytes();
    hex_string(bytes)
}

/// The file name of a blob inside the blob directory.
pub fn blob_file_name(digest: &[u8; 32]) -> (r: String)
    ensures
        r@ == blob_name(digest@),
{
    hex_string(digest)
}

} // verus!
