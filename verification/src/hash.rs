//! SHA-1 digests, as `crypto_hash` and the `sha1` crate compute them.

use sha1::Digest;
use vstd::prelude::*;

verus! {

/// The SHA-1 digest of a byte string.
pub uninterp spec fn sha1(data: Seq<u8>) -> Seq<u8>;

/// Calls `crypto_hash::digest` with SHA-1: the digest of `data`, which is
/// twenty bytes long, as SHA-1 digests are.
#[verifier::external_body]
pub(crate) fn sha1_digest(data: &[u8]) -> (r: Vec<u8>)
    ensures
        r@ == sha1(data@),
        r@.len() == 20,
{
    crypto_hash::digest(crypto_hash::Algorithm::SHA1, data)
}

/// The SHA-1 digest of `data` as an array.
pub fn sha1_array(data: &[u8]) -> (r: [u8; 20])
    ensures
        r@ == sha1(data@),
{
    let v = sha1_digest(data);
    let mut r = [0u8; 20];
    let mut i: usize = 0;
    while i < 20
        invariant
            i <= 20,
            v@.len() == 20,
            r@.len() == 20,
            forall|j: int| 0 <= j < i ==> r@[j] == v@[j],
        decreases 20 - i,
    {
        r[i] = v[i];
        i = i + 1;
    }
    assert(r@ =~= v@);
    r
}

/// The digest that a fresh `sha1::Sha1` hasher gives after taking in a byte
/// string.
pub uninterp spec fn sha1_hasher(data: Seq<u8>) -> Seq<u8>;

/// Feeds `data` to a new `sha1::Sha1` (`Digest::new`, `update`, `finalize`)
/// and returns the twenty bytes of its output.
#[verifier::external_body]
fn sha1_hasher_digest(data: &[u8]) -> (r: [u8; 20])
    ensures
        r@ == sha1_hasher(data@),
{
    let mut hasher = sha1::Sha1::new();
    hasher.update(data);
    hasher.finalize().into()
}

/// The SHA-1 hash of a piece.
pub fn calculate_piece_hash(piece: &[u8]) -> (r: [u8; 20])
    ensures
        r@ == sha1_hasher(piece@),
{
    sha1_hasher_digest(piece)
}

} // verus!
