//! Shard encryption with Kuznyechik in output feedback mode, keyed by a
//! password and started from a stored gamma. The password and the gamma are
//! kept in two files of the user's working folder; this module works on
//! their contents.
//!
//! Output feedback XORs the data with a key stream that depends on the key
//! and the gamma alone, so decryption is the same operation as encryption.
use kuznechik::{AlgOfb, KeyStore, Kuznechik};
use vstd::prelude::*;
use vstd::utf8::{decode_utf8, valid_utf8};

verus! {

/// The name of the working folder in the user's home directory.
pub const WORKING_FOLDER_NAME: &'static str = ".leaf";

/// The name of the password file.
pub const PASSWORD_FILE_NAME: &'static str = "passwd.txt";

/// The name of the gamma file.
pub const GAMMA_FILE_NAME: &'static str = "gamma.bin";

/// The length of a generated password.
pub const PASSWORD_LEN: usize = 32;

/// The length of a generated gamma.
pub const GAMMA_LEN: usize = 32;

/// The key stream of Kuznyechik in output feedback mode for a password and a
/// starting gamma, cut to a length.
pub uninterp spec fn kuznechik_ofb_keystream(password: Seq<char>, gamma: Seq<u8>, len: nat) -> Seq<u8>;

/// The data XORed byte-wise with a key stream.
pub open spec fn xor_with(data: Seq<u8>, stream: Seq<u8>) -> Seq<u8> {
    Seq::new(data.len(), |i: int| data[i] ^ stream[i])
}

/// Calls `KeyStore::with_password`, `AlgOfb::new(..).gamma(..)` and
/// `Kuznechik::encrypt`: the data XORed with the output feedback key stream
/// of the password and the gamma. The crate needs a gamma of at least 32
/// bytes as soon as there is a byte to encrypt.
#[verifier::external_body]
fn ofb_encrypt(password: &str, gamma: &[u8], data: &[u8]) -> (out: Vec<u8>)
    requires
        gamma@.len() >= 32 || data@.len() == 0,
    ensures
        out@ == xor_with(data@, kuznechik_ofb_keystream(password@, gamma@, data@.len())),
{
    let key = KeyStore::with_password(password);
    let mut cipher = AlgOfb::new(&key).gamma(gamma.to_vec());
    cipher.encrypt(data.to_vec())
}

/// Calls `std::str::from_utf8`, which accepts exactly the valid UTF-8 byte
/// strings, and returns the text as a `String`; the text of an error is the
/// standard library's message.
#[verifier::external_body]
fn utf8_text(bytes: &[u8]) -> (r: Result<String, String>)
    ensures
        (r is Ok) == valid_utf8(bytes@),
        r matches Ok(s) ==> s@ == decode_utf8(bytes@),
{
    match std::str::from_utf8(bytes) {
        Ok(s) => Ok(s.to_string()),
        Err(e) => Err(e.to_string()),
    }
}

proof fn lemma_xor_with_twice(data: Seq<u8>, stream: Seq<u8>)
    ensures
        xor_with(xor_with(data, stream), stream) == data,
{
    assert forall|i: int| 0 <= i < data.len() implies xor_with(xor_with(data, stream), stream)[i]
        == data[i] by {
        let a = data[i];
        let g = stream[i];
        assert((a ^ g) ^ g == a) by (bit_vector);
    }
    assert(xor_with(xor_with(data, stream), stream) =~= data);
}

/// The Kuznyechik encryptor in output feedback mode: the contents of the
/// password file and of the gamma file.
pub struct KuznechikEncryptor {
    password: Vec<u8>,
    gamma: Vec<u8>,
}

impl KuznechikEncryptor {
    /// The content of the password file.
    pub closed spec fn password(self) -> Seq<u8> {
        self.password@
    }

    /// The content of the gamma file.
    pub closed spec fn gamma(self) -> Seq<u8> {
        self.gamma@
    }

    /// What encryption makes of a shard: the shard XORed with the key stream
    /// of the password, read as text, and the gamma.
    pub open spec fn encrypted(self, chunk: Seq<u8>) -> Seq<u8> {
        xor_with(
            chunk,
            kuznechik_ofb_keystream(decode_utf8(self.password()), self.gamma(), chunk.len()),
        )
    }

    /// The encryptor for the contents of the password file and of the gamma
    /// file.
    pub fn new(password: Vec<u8>, gamma: Vec<u8>) -> (e: KuznechikEncryptor)
        ensures
            e.password() == password@,
            e.gamma() == gamma@,
    {
        KuznechikEncryptor { password, gamma }
    }

    /// The password as text; a password file that is not UTF-8 text is
    /// refused.
    fn load_password(&self) -> (r: Result<String, PasswordFromUtf8Error>)
        ensures
            (r is Ok) == valid_utf8(self.password()),
            r matches Ok(s) ==> s@ == decode_utf8(self.password()),
    {
        match utf8_text(self.password.as_slice()) {
            Ok(s) => Ok(s),
            Err(e) => Err(PasswordFromUtf8Error(e)),
        }
    }

    /// Encrypts a shard: the shard XORed with the key stream of the password
    /// and the gamma. A password that is not UTF-8 text is refused.
    pub fn encrypt_chunk(&self, chunk: &[u8]) -> (r: Result<Vec<u8>, PasswordFromUtf8Error>)
        requires
            self.gamma().len() >= 32 || chunk@.len() == 0,
        ensures
            (r is Ok) == valid_utf8(self.password()),
            r matches Ok(c) ==> c@ == xor_with(
                chunk@,
                kuznechik_ofb_keystream(decode_utf8(self.password()), self.gamma(), chunk@.len()),
            ),
    {
        let password = self.load_password()?;
        Ok(ofb_encrypt(password.as_str(), self.gamma.as_slice(), chunk))
    }

    /// Decrypts a shard, which is the same operation as encrypting it; what
    /// `encrypt_chunk` made of a shard comes back as the shard.
    pub fn decrypt_chunk(&self, chunk: &[u8]) -> (r: Result<Vec<u8>, PasswordFromUtf8Error>)
        requires
            self.gamma().len() >= 32 || chunk@.len() == 0,
        ensures
            (r is Ok) == valid_utf8(self.password()),
            r matches Ok(c) ==> c@ == xor_with(
                chunk@,
                kuznechik_ofb_keystream(decode_utf8(self.password()), self.gamma(), chunk@.len()),
            ),
            forall|p: Seq<u8>|
                #![trigger xor_with(p, kuznechik_ofb_keystream(decode_utf8(self.password()), self.gamma(), p.len()))]
                chunk@ == xor_with(
                    p,
                    kuznechik_ofb_keystream(decode_utf8(self.password()), self.gamma(), p.len()),
                ) ==> (r matches Ok(c) ==> c@ == p),
    {
        let password = self.load_password()?;
        let out = ofb_encrypt(password.as_str(), self.gamma.as_slice(), chunk);
        proof {
            assert forall|p: Seq<u8>|
                #![trigger xor_with(p, kuznechik_ofb_keystream(decode_utf8(self.password()), self.gamma(), p.len()))]
                chunk@ == xor_with(
                    p,
                    kuznechik_ofb_keystream(decode_utf8(self.password()), self.gamma(), p.len()),
                ) implies out@ == p by {
                let ks = kuznechik_ofb_keystream(decode_utf8(self.password()), self.gamma(), p.len());
                assert(p.len() == chunk@.len());
                lemma_xor_with_twice(p, ks);
            }
        }
        Ok(out)
    }
}

/// The password file could not be read as text.
#[derive(Debug)]
pub struct PasswordFromUtf8Error(pub String);

/// The user's home directory is not known.
#[derive(Debug)]
pub struct UserHomeDirResolvingError;

/// A credentials file could not be created or read.
#[derive(Debug)]
pub struct CredentialsFileInitializationError(pub String);

} // verus!
