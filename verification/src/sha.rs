//! Shard digests with SHA3-256, as raw bytes.
use openssl::hash::{hash, MessageDigest};
use vstd::prelude::*;

use crate::bytes::same_bytes;

verus! {

/// The SHA3-256 digest of a byte string.
pub uninterp spec fn sha3_256(data: Seq<u8>) -> Seq<u8>;

/// Calls `openssl::hash::hash(MessageDigest::sha3_256(), data)`; where
/// OpenSSL computes the digest it is the 32-byte SHA3-256 digest. The text of
/// an error is OpenSSL's error stack.
#[verifier::external_body]
fn openssl_sha3_256(data: &[u8]) -> (r: Result<Vec<u8>, String>)
    ensures
        r matches Ok(d) ==> d@ == sha3_256(data@) && d@.len() == 32,
{
    match hash(MessageDigest::sha3_256(), data) {
        Ok(d) => Ok(d.to_vec()),
        Err(e) => Err(e.to_string()),
    }
}

/// The SHA3-256 hasher.
pub struct Sha3_256Hasher;

impl Sha3_256Hasher {
    /// The SHA3-256 digest of a shard.
    pub fn calc_hash_for_chunk(chunk: &[u8]) -> (r: Result<Vec<u8>, HashCalculationError>)
        ensures
            r matches Ok(d) ==> d@ == sha3_256(chunk@) && d@.len() == 32,
    {
        match openssl_sha3_256(chunk) {
            Ok(d) => Ok(d),
            Err(e) => Err(HashCalculationError(e)),
        }
    }

    /// Whether a digest is the expected one: the same bytes.
    pub fn is_hash_equal_to_model(chunk: &[u8], model: &[u8]) -> (b: bool)
        ensures
            b == (chunk@ == model@),
    {
        same_bytes(chunk, model)
    }
}

/// A digest could not be computed.
#[derive(Debug)]
pub struct HashCalculationError(pub String);

} // verus!
