//! Shard encryption with AES-256-GCM under the 32-byte password of the
//! password file. An encrypted shard is a fresh random 12-byte nonce followed
//! by the sealed shard (ciphertext and tag).
use aes_gcm::aead::{Aead, AeadCore, KeyInit, OsRng};
use aes_gcm::{Aes256Gcm, Key, Nonce};
use vstd::prelude::*;

use crate::bytes::copy_bytes;

verus! {

/// The length of a nonce.
pub const NONCE_LEN: usize = 12;

/// The largest plaintext that AES-GCM seals: 2^36 bytes.
pub const MAX_PLAINTEXT_LEN: u64 = 68719476736;

/// What AES-256-GCM seals a plaintext into under a key and a nonce (the
/// ciphertext followed by the tag), with no associated data.
pub uninterp spec fn aes256gcm_sealed(key: Seq<u8>, nonce: Seq<u8>, plaintext: Seq<u8>) -> Seq<u8>;

/// What AES-256-GCM opens a sealed text into under a key and a nonce, or
/// `None` where the tag does not check.
pub uninterp spec fn aes256gcm_opened(key: Seq<u8>, nonce: Seq<u8>, sealed: Seq<u8>) -> Option<Seq<u8>>;

/// Calls `Aes256Gcm::new` and `Aead::encrypt` with no associated data. It
/// refuses only a plaintext longer than 2^36 bytes; what it seals is the
/// plaintext encrypted in place followed by the 16-byte tag.
#[verifier::external_body]
fn aes256gcm_seal(key: &[u8], nonce: &[u8], plaintext: &[u8]) -> (r: Result<Vec<u8>, String>)
    requires
        key@.len() == 32,
        nonce@.len() == 12,
    ensures
        r matches Ok(c) ==> c@ == aes256gcm_sealed(key@, nonce@, plaintext@),
        r matches Ok(c) ==> c@.len() == plaintext@.len() + 16,
        plaintext@.len() <= MAX_PLAINTEXT_LEN ==> r is Ok,
{
    let cipher = Aes256Gcm::new(Key::<Aes256Gcm>::from_slice(key));
    cipher.encrypt(Nonce::from_slice(nonce), plaintext).map_err(|e| e.to_string())
}

/// Calls `Aes256Gcm::new` and `Aead::decrypt` with no associated data: the
/// plaintext where the tag checks, which for what was sealed under the same
/// key and nonce (of a plaintext that sealing takes) is the plaintext that
/// was sealed. A sealed text shorter than the 16-byte tag is refused; the
/// plaintext is the sealed text without its tag, decrypted in place.
#[verifier::external_body]
fn aes256gcm_open(key: &[u8], nonce: &[u8], sealed: &[u8]) -> (r: Result<Vec<u8>, String>)
    requires
        key@.len() == 32,
        nonce@.len() == 12,
    ensures
        (r is Ok) == (aes256gcm_opened(key@, nonce@, sealed@) is Some),
        r matches Ok(p) ==> p@ == aes256gcm_opened(key@, nonce@, sealed@)->Some_0,
        r matches Ok(p) ==> p@.len() + 16 == sealed@.len(),
        sealed@.len() < 16 ==> r is Err,
        forall|plaintext: Seq<u8>|
            #![trigger aes256gcm_sealed(key@, nonce@, plaintext)]
            plaintext.len() <= MAX_PLAINTEXT_LEN && aes256gcm_sealed(key@, nonce@, plaintext)
                == sealed@ ==> r is Ok && r->Ok_0@ == plaintext,
{
    let cipher = Aes256Gcm::new(Key::<Aes256Gcm>::from_slice(key));
    cipher.decrypt(Nonce::from_slice(nonce), sealed).map_err(|e| e.to_string())
}

/// Calls `AeadCore::generate_nonce` with the operating system's generator;
/// the nonce is 12 bytes long and what it holds is not stated (it is
/// random).
#[verifier::external_body]
fn random_nonce() -> (n: Vec<u8>)
    ensures
        n@.len() == 12,
{
    Aes256Gcm::generate_nonce(&mut OsRng).to_vec()
}

/// The AES-256-GCM shard encryptor: the content of the password file.
pub struct Aes256Encryptor {
    password: Vec<u8>,
}

impl Aes256Encryptor {
    /// The content of the password file, the key.
    pub closed spec fn password(self) -> Seq<u8> {
        self.password@
    }

    /// The encryptor for the content of the password file.
    pub fn new(password: Vec<u8>) -> (e: Aes256Encryptor)
        ensures
            e.password() == password@,
    {
        Aes256Encryptor { password }
    }

    /// Encrypts a shard: a fresh random nonce followed by the shard sealed
    /// under the password and that nonce.
    pub fn encrypt_chunk(&self, chunk: &[u8]) -> (r: Result<Vec<u8>, DataEncryptionError>)
        requires
            self.password().len() == 32,
        ensures
            r matches Ok(c) ==> exists|n: Seq<u8>|
                n.len() == 12 && c@ == n + #[trigger] aes256gcm_sealed(self.password(), n, chunk@),
            r matches Ok(c) ==> c@.len() == chunk@.len() + 28,
            chunk@.len() <= MAX_PLAINTEXT_LEN ==> r is Ok,
    {
        let nonce = random_nonce();
        let sealed = match aes256gcm_seal(self.password.as_slice(), nonce.as_slice(), chunk) {
            Ok(s) => s,
            Err(e) => return Err(DataEncryptionError(e)),
        };
        let mut out = copy_bytes(nonce.as_slice());
        let mut rest = sealed;
        out.append(&mut rest);
        assert(aes256gcm_sealed(self.password(), nonce@, chunk@) == sealed@);
        Ok(out)
    }

    /// Decrypts a shard: its first 12 bytes are the nonce, the rest is
    /// opened under the password and that nonce; a shard whose tag does not
    /// check is refused. What `encrypt_chunk` made of a shard comes back as
    /// the shard.
    pub fn decrypt_chunk(&self, chunk: &[u8]) -> (r: Result<Vec<u8>, DataDecryptionError>)
        requires
            self.password().len() == 32,
            chunk@.len() >= 12,
        ensures
            (r is Ok) == (aes256gcm_opened(
                self.password(),
                chunk@.subrange(0, 12),
                chunk@.subrange(12, chunk@.len() as int),
            ) is Some),
            r matches Ok(p) ==> p@ == aes256gcm_opened(
                self.password(),
                chunk@.subrange(0, 12),
                chunk@.subrange(12, chunk@.len() as int),
            )->Some_0,
            r matches Ok(p) ==> p@.len() + 28 == chunk@.len(),
            chunk@.len() < 28 ==> r is Err,
            forall|n: Seq<u8>, plaintext: Seq<u8>|
                #![trigger aes256gcm_sealed(self.password(), n, plaintext)]
                n.len() == 12 && plaintext.len() <= MAX_PLAINTEXT_LEN && chunk@ == n
                    + aes256gcm_sealed(self.password(), n, plaintext) ==> r is Ok && r->Ok_0@
                    == plaintext,
    {
        let mut nonce = copy_bytes(chunk);
        let sealed = nonce.split_off(NONCE_LEN);
        let r = aes256gcm_open(self.password.as_slice(), nonce.as_slice(), sealed.as_slice());
        proof {
            assert forall|n: Seq<u8>, plaintext: Seq<u8>|
                #![trigger aes256gcm_sealed(self.password(), n, plaintext)]
                n.len() == 12 && plaintext.len() <= MAX_PLAINTEXT_LEN && chunk@ == n
                    + aes256gcm_sealed(self.password(), n, plaintext) implies r is Ok && r->Ok_0@
                    == plaintext by {
                assert(nonce@ =~= n);
                assert(sealed@ =~= aes256gcm_sealed(self.password(), n, plaintext));
            }
        }
        match r {
            Ok(p) => Ok(p),
            Err(e) => Err(DataDecryptionError(e)),
        }
    }
}

/// A shard could not be encrypted.
#[derive(Debug)]
pub struct DataEncryptionError(pub String);

/// A shard could not be decrypted.
#[derive(Debug)]
pub struct DataDecryptionError(pub String);

} // verus!
