//! Shard encryption with AES in IGE mode under the content of the password
//! file, for shards of one 4096-byte block. Encryption starts from a fresh
//! random initialisation vector, which it does not keep; decryption starts
//! from the zero vector.
use openssl::aes::{aes_ige, AesKey};
use openssl::rand::rand_priv_bytes;
use openssl::symm::Mode;
use vstd::prelude::*;

use crate::bytes::zeros;

verus! {

/// The length of the shards.
pub const IGE_CHUNK_LEN: usize = 4096;

/// The length of an initialisation vector.
pub const IGE_IV_LEN: usize = 32;

/// What AES in IGE mode makes of data under a key and an initialisation
/// vector, encrypting or decrypting.
pub uninterp spec fn aes_ige_result(key: Seq<u8>, iv: Seq<u8>, data: Seq<u8>, encrypt: bool) -> Seq<u8>;

/// An AES key: 128, 192 or 256 bits.
pub open spec fn is_aes_key(key: Seq<u8>) -> bool {
    key.len() == 16 || key.len() == 24 || key.len() == 32
}

/// Calls `AesKey::new_encrypt` and `aes_ige` in `Mode::Encrypt` into a
/// buffer of the length of the data. The key is 128, 192 or 256 bits, the
/// data a whole number of 16-byte blocks and the vector 32 bytes, which the
/// crate asks for.
#[verifier::external_body]
fn ige_encrypt(key: &[u8], iv: &[u8], data: &[u8]) -> (out: Vec<u8>)
    requires
        is_aes_key(key@),
        data@.len() % 16 == 0,
        iv@.len() == 32,
    ensures
        out@ == aes_ige_result(key@, iv@, data@, true),
        out@.len() == data@.len(),
{
    let mut out = vec![0u8; data.len()];
    let mut v = iv.to_vec();
    aes_ige(data, &mut out, &AesKey::new_encrypt(key).unwrap(), &mut v, Mode::Encrypt);
    out
}

/// Calls `AesKey::new_decrypt` and `aes_ige` in `Mode::Decrypt` into a
/// buffer of the length of the data, with the same demands on the key, the
/// data and the vector.
#[verifier::external_body]
fn ige_decrypt(key: &[u8], iv: &[u8], data: &[u8]) -> (out: Vec<u8>)
    requires
        is_aes_key(key@),
        data@.len() % 16 == 0,
        iv@.len() == 32,
    ensures
        out@ == aes_ige_result(key@, iv@, data@, false),
        out@.len() == data@.len(),
{
    let mut out = vec![0u8; data.len()];
    let mut v = iv.to_vec();
    aes_ige(data, &mut out, &AesKey::new_decrypt(key).unwrap(), &mut v, Mode::Decrypt);
    out
}

/// Calls `openssl::rand::rand_priv_bytes` on a buffer, which keeps its
/// length; what it is filled with is not stated (it is random). Where
/// OpenSSL fails, the buffer is left as it is.
#[verifier::external_body]
fn fill_private_random(buf: &mut Vec<u8>)
    ensures
        final(buf)@.len() == old(buf)@.len(),
{
    let _ = rand_priv_bytes(buf.as_mut_slice());
}

/// Encrypts a shard of 4096 bytes under the password from a fresh random
/// initialisation vector: the result is what AES-IGE makes of the shard
/// under the password and some 32-byte vector.
pub fn encrypt_chunk(passwd: &[u8], chunk: &[u8]) -> (out: Vec<u8>)
    requires
        is_aes_key(passwd@),
        chunk@.len() == IGE_CHUNK_LEN,
    ensures
        out@.len() == IGE_CHUNK_LEN,
        exists|iv: Seq<u8>| iv.len() == 32 && out@ == #[trigger] aes_ige_result(passwd@, iv, chunk@, true),
{
    let mut iv = zeros(IGE_IV_LEN);
    fill_private_random(&mut iv);
    let out = ige_encrypt(passwd, iv.as_slice(), chunk);
    assert(aes_ige_result(passwd@, iv@, chunk@, true) == out@);
    out
}

/// Decrypts a shard of 4096 bytes under the password from the zero
/// initialisation vector.
pub fn decrypt_chunk(passwd: &[u8], chunk: &[u8]) -> (out: Vec<u8>)
    requires
        is_aes_key(passwd@),
        chunk@.len() == IGE_CHUNK_LEN,
    ensures
        out@ == aes_ige_result(passwd@, Seq::new(32, |i: int| 0u8), chunk@, false),
        out@.len() == IGE_CHUNK_LEN,
{
    let iv = zeros(IGE_IV_LEN);
    assert(iv@ =~= Seq::new(32, |i: int| 0u8));
    ige_decrypt(passwd, iv.as_slice(), chunk)
}

} // verus!
