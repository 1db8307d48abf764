//! The BLAKE3 hash.

use vstd::prelude::*;

verus! {

/// The BLAKE3 digest of a byte string: 32 bytes.
pub uninterp spec fn blake3_digest(data: Seq<u8>) -> Seq<u8>;

/// Hashes a byte string with BLAKE3 (`blake3::hash`). The contract names
/// the digest; nothing else is claimed of it.
#[verifier::external_body]
pub(crate) fn blake3_hash(data: &[u8]) -> (digest: [u8; 32])
    ensures
        digest@ == blake3_digest(data@),
{
    blake3::hash(data).into()
}

} // verus!
