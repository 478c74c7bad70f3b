//! The SHA-1 digest used for piece verification and the info-hash, and the
//! randomness used for tracker transaction ids.  Both come from outside
//! crates; everything else in the library speaks of them only through the
//! contracts given here.

use vstd::prelude::*;

use sha1::{Digest, Sha1};

verus! {

/// The SHA-1 digest of a byte string.  What the digest is on given bytes is
/// not stated here; the `sha1` crate computes it, and contracts only relate
/// digests to each other.
pub uninterp spec fn sha1_of(bytes: Seq<u8>) -> Seq<u8>;

/// Relies on `sha1::Sha1` through the `Digest` trait: the digest depends on
/// the input bytes alone and is always 20 bytes long.
#[verifier::external_body]
pub fn sha1_digest(bytes: &[u8]) -> (r: Vec<u8>)
    ensures
        r@ == sha1_of(bytes@),
        r@.len() == 20,
{
    let mut hasher = Sha1::new();
    hasher.update(bytes);
    hasher.finalize().to_vec()
}

/// Whether `data` hashes to `expected` under SHA-1.
pub fn sha1_matches(data: &[u8], expected: &[u8]) -> (r: bool)
    ensures
        r == (sha1_of(data@) == expected@),
{
    let digest = sha1_digest(data);
    crate::wire::bytes_eq(digest.as_slice(), expected)
}

/// Relies on `rand::random`: a freshly drawn value, of which nothing is
/// promised.
pub assume_specification<T>[ rand::random::<T> ]() -> (r: T)
    where
        rand::distributions::Standard: rand::distributions::Distribution<T>,
;

/// A fresh transaction id for the next tracker request.  Two calls may or
/// may not differ; callers must not rely on the value.
pub fn fresh_transaction_id() -> u32 {
    rand::random::<u32>()
}

} // verus!
