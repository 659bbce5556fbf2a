//! SHA-1 and SHA-256 digests (the `sha1` and `sha2` crates) and piece checks.
use vstd::prelude::*;
use sha1::{Digest, Sha1};
use sha2::Sha256;

verus! {

/// The SHA-1 digest of a byte string.
pub uninterp spec fn sha1_digest(data: Seq<u8>) -> Seq<u8>;

/// The SHA-256 digest of a byte string.
pub uninterp spec fn sha256_digest(data: Seq<u8>) -> Seq<u8>;

/// `Sha1::digest(data)` as a 20-byte array.
#[verifier::external_body]
pub(crate) fn sha1(data: &[u8]) -> (r: [u8; 20])
    ensures
        r@ == sha1_digest(data@),
{
    let mut out = [0u8; 20];
    out.copy_from_slice(&Sha1::digest(data));
    out
}

/// `Sha256::digest(data)` as a 32-byte array.
#[verifier::external_body]
pub(crate) fn sha256(data: &[u8]) -> (r: [u8; 32])
    ensures
        r@ == sha256_digest(data@),
{
    let mut out = [0u8; 32];
    out.copy_from_slice(&Sha256::digest(data));
    out
}

/// Whether downloaded piece data has the SHA-1 hash that the torrent lists.
pub fn verify_piece(data: &[u8], expected: &[u8; 20]) -> (r: bool)
    ensures
        r == (sha1_digest(data@) == expected@),
{
    let actual = sha1(data);
    let mut i: usize = 0;
    while i < 20
        invariant
            i <= 20,
            actual@ == sha1_digest(data@),
            forall|j: int| 0 <= j < i ==> actual@[j] == expected@[j],
        decreases 20 - i,
    {
        if actual[i] != expected[i] {
            return false;
        }
        i = i + 1;
    }
    assert(actual@ =~= expected@);
    true
}

} // verus!
