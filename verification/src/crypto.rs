//! Shard encryption with the Kuznyechik block cipher (GOST R 34.12-2015) and
//! shard naming with the Streebog digest (GOST R 34.11-2012).
//!
//! A shard is padded with zero bytes to a multiple of sixteen; every block of
//! sixteen bytes is masked with the gamma (byte-wise XOR over the first
//! `min(16, gamma.len())` bytes) and then encrypted under the key. Decryption
//! runs the two steps backwards.
use kuznyechik::cipher::{BlockDecrypt, BlockEncrypt, KeyInit};
use kuznyechik::{Block, Key, Kuznyechik};
use rand::rngs::OsRng;
use rand::Rng;
use streebog::digest::Update;
use streebog::Digest;
use vstd::prelude::*;

use crate::bytes::{copy_bytes, zeros};
use crate::credentials::{join, join_path};
use crate::encoding::{base64_decode, base64_encode, base64_of, hex_encode, hex_lower};

verus! {

// ---------------------------------------------------------------------------
// Names for what the outside primitives compute
// ---------------------------------------------------------------------------
/// What `Kuznyechik::encrypt_block` makes of a block under a key.
pub uninterp spec fn kuznyechik_encrypt(key: Seq<u8>, block: Seq<u8>) -> Seq<u8>;

/// What `Kuznyechik::decrypt_block` makes of a block under a key.
pub uninterp spec fn kuznyechik_decrypt(key: Seq<u8>, block: Seq<u8>) -> Seq<u8>;

/// The 256-bit Streebog digest of a byte string.
pub uninterp spec fn streebog256(data: Seq<u8>) -> Seq<u8>;

/// The key that Argon2 (default parameters: Argon2id, version 0x13, 19 MiB,
/// two passes, one lane) derives from a password and a salt, of the given
/// length.
pub uninterp spec fn argon2_key(password: Seq<u8>, salt: Seq<u8>, len: nat) -> Seq<u8>;

/// The sixteen bytes of a block encryption.
pub open spec fn enc_block(key: Seq<u8>, block: Seq<u8>) -> Seq<u8> {
    Seq::new(16, |i: int| kuznyechik_encrypt(key, block)[i])
}

/// The sixteen bytes of a block decryption.
pub open spec fn dec_block(key: Seq<u8>, block: Seq<u8>) -> Seq<u8> {
    Seq::new(16, |i: int| kuznyechik_decrypt(key, block)[i])
}

// ---------------------------------------------------------------------------
// Trusted calls into the cipher, digest, key derivation and randomness crates
// ---------------------------------------------------------------------------
/// Calls `Kuznyechik::new` on the 32-byte key and `BlockEncrypt::encrypt_block`
/// on one 16-byte block; the result is the 16-byte ciphertext block.
#[verifier::external_body]
fn kuznyechik_encrypt_block(key: &[u8], block: &[u8]) -> (out: Vec<u8>)
    requires
        key@.len() == 32,
        block@.len() == 16,
    ensures
        out@ == kuznyechik_encrypt(key@, block@),
        out@.len() == 16,
{
    let cipher = Kuznyechik::new(Key::from_slice(key));
    let mut b = Block::clone_from_slice(block);
    cipher.encrypt_block(&mut b);
    b.to_vec()
}

/// Calls `Kuznyechik::new` on the 32-byte key and `BlockDecrypt::decrypt_block`
/// on one 16-byte block. The result is 16 bytes, and, the cipher being a
/// permutation of blocks, it is the block whose encryption under the same key
/// is the input.
#[verifier::external_body]
fn kuznyechik_decrypt_block(key: &[u8], block: &[u8]) -> (out: Vec<u8>)
    requires
        key@.len() == 32,
        block@.len() == 16,
    ensures
        out@ == kuznyechik_decrypt(key@, block@),
        out@.len() == 16,
        forall|p: Seq<u8>|
            #![trigger enc_block(key@, p)]
            p.len() == 16 && enc_block(key@, p) == block@ ==> out@ == p,
{
    let cipher = Kuznyechik::new(Key::from_slice(key));
    let mut b = Block::clone_from_slice(block);
    cipher.decrypt_block(&mut b);
    b.to_vec()
}

/// Calls `Streebog256::new`, `Update::update` and `Digest::finalize`; the
/// digest is 32 bytes long.
#[verifier::external_body]
fn streebog256_digest(data: &[u8]) -> (digest: Vec<u8>)
    ensures
        digest@ == streebog256(data@),
        digest@.len() == 32,
{
    let mut hasher = streebog::Streebog256::new();
    Update::update(&mut hasher, data);
    hasher.finalize().to_vec()
}

/// Calls `Argon2::default().hash_password_into`, which fills the 32-byte
/// `out` with the derived key. For that output length it refuses exactly a
/// password longer than `0xFFFFFFFF` bytes and a salt shorter than 8 or
/// longer than `0xFFFFFFFF` bytes. When it fails the content of `out` is not
/// stated.
#[verifier::external_body]
fn argon2_hash_into(password: &[u8], salt: &[u8], out: &mut Vec<u8>) -> (r: Result<(), String>)
    requires
        old(out)@.len() == 32,
    ensures
        final(out)@.len() == old(out)@.len(),
        r is Ok ==> final(out)@ == argon2_key(password@, salt@, old(out)@.len()),
        (r is Ok) == (8 <= salt@.len() <= 0xFFFFFFFF && password@.len() <= 0xFFFFFFFF),
{
    argon2::Argon2::default().hash_password_into(password, salt, out.as_mut_slice()).map_err(
        |e| e.to_string(),
    )
}

/// Calls `Rng::fill` on the operating system's generator; the buffer keeps
/// its length and what it is filled with is not stated (it is random).
#[verifier::external_body]
fn fill_random(buf: &mut Vec<u8>)
    ensures
        final(buf)@.len() == old(buf)@.len(),
{
    OsRng.fill(buf.as_mut_slice())
}

// ---------------------------------------------------------------------------
// The shard layout
// ---------------------------------------------------------------------------
/// How many zero bytes bring a length up to a multiple of sixteen.
pub open spec fn padding_len(n: nat) -> nat {
    if n % 16 == 0 {
        0
    } else {
        (16 - n % 16) as nat
    }
}

/// A shard padded with zero bytes to a multiple of sixteen.
pub open spec fn pad16(s: Seq<u8>) -> Seq<u8> {
    s + Seq::new(padding_len(s.len()), |i: int| 0u8)
}

/// Block number `b` (sixteen bytes) of a byte string.
pub open spec fn block_at(d: Seq<u8>, b: int) -> Seq<u8> {
    d.subrange(16 * b, 16 * b + 16)
}

/// A block masked with the gamma: byte `i` is XORed with gamma byte `i` when
/// the gamma has one, and kept otherwise.
pub open spec fn mask(block: Seq<u8>, gamma: Seq<u8>) -> Seq<u8> {
    Seq::new(
        block.len(),
        |i: int|
            if i < gamma.len() {
                block[i] ^ gamma[i]
            } else {
                block[i]
            },
    )
}

/// The ciphertext of a shard: its zero-padded blocks, each masked with the
/// gamma and encrypted under the key.
pub open spec fn kuznechik_encrypted(key: Seq<u8>, gamma: Seq<u8>, chunk: Seq<u8>) -> Seq<u8> {
    let d = pad16(chunk);
    Seq::new(d.len(), |j: int| enc_block(key, mask(block_at(d, j / 16), gamma))[j % 16])
}

/// The plaintext of a ciphertext whose length is a multiple of sixteen: each
/// block decrypted under the key and then masked with the gamma.
pub open spec fn kuznechik_decrypted(key: Seq<u8>, gamma: Seq<u8>, chunk: Seq<u8>) -> Seq<u8> {
    Seq::new(chunk.len(), |j: int| mask(dec_block(key, block_at(chunk, j / 16)), gamma)[j % 16])
}

proof fn lemma_block_index(j: int, b: int)
    requires
        0 <= b,
        16 * b <= j < 16 * b + 16,
    ensures
        j / 16 == b,
        j % 16 == j - 16 * b,
{
    assert(j / 16 == b) by (nonlinear_arith)
        requires
            0 <= b,
            16 * b <= j < 16 * b + 16,
    ;
    assert(j % 16 == j - 16 * b) by (nonlinear_arith)
        requires
            0 <= b,
            16 * b <= j < 16 * b + 16,
            j / 16 == b,
    ;
}

proof fn lemma_padded_len(n: nat)
    ensures
        (n + padding_len(n)) % 16 == 0,
        padding_len(n) < 16,
{
    assert((n + padding_len(n)) % 16 == 0) by (nonlinear_arith)
        requires
            padding_len(n) == (if n % 16 == 0 {
                0
            } else {
                16 - n % 16
            }),
    ;
}

proof fn lemma_xor_twice(a: u8, g: u8)
    ensures
        (a ^ g) ^ g == a,
{
    assert((a ^ g) ^ g == a) by (bit_vector);
}

proof fn lemma_mask_twice(block: Seq<u8>, gamma: Seq<u8>)
    ensures
        mask(mask(block, gamma), gamma) == block,
{
    assert forall|i: int| 0 <= i < block.len() implies mask(mask(block, gamma), gamma)[i]
        == block[i] by {
        if i < gamma.len() {
            lemma_xor_twice(block[i], gamma[i]);
        }
    }
    assert(mask(mask(block, gamma), gamma) =~= block);
}

/// The shard followed by zero bytes up to a multiple of sixteen.
fn pad_to_blocks(chunk: &[u8]) -> (padded: Vec<u8>)
    requires
        chunk@.len() + 16 <= usize::MAX,
    ensures
        padded@ == pad16(chunk@),
        padded@.len() % 16 == 0,
{
    let mut padded = copy_bytes(chunk);
    proof {
        lemma_padded_len(chunk@.len());
    }
    let p = padding_len_exec(chunk.len());
    let mut i: usize = 0;
    while i < p
        invariant
            i <= p,
            p == padding_len(chunk@.len()),
            p < 16,
            chunk@.len() + 16 <= usize::MAX,
            padded@ == chunk@ + Seq::new(i as nat, |k: int| 0u8),
        decreases p - i,
    {
        padded.push(0u8);
        i += 1;
        assert(padded@ =~= chunk@ + Seq::new(i as nat, |k: int| 0u8));
    }
    padded
}

fn padding_len_exec(n: usize) -> (p: usize)
    ensures
        p == padding_len(n as nat),
{
    if n % 16 == 0 {
        0
    } else {
        16 - n % 16
    }
}

/// Block `b` of `data`.
fn copy_block(data: &[u8], b: usize) -> (block: Vec<u8>)
    requires
        16 * b + 16 <= data@.len(),
    ensures
        block@ == block_at(data@, b as int),
{
    let len = data.len();
    let mut block: Vec<u8> = Vec::new();
    let mut t: usize = 0;
    while t < 16
        invariant
            t <= 16,
            len == data@.len(),
            16 * b + 16 <= data@.len(),
            block@ == block_at(data@, b as int).subrange(0, t as int),
        decreases 16 - t,
    {
        block.push(data[16 * b + t]);
        t += 1;
        assert(block@ =~= block_at(data@, b as int).subrange(0, t as int));
    }
    assert(block@ =~= block_at(data@, b as int));
    block
}

/// Block `b` of `data`, masked with the gamma.
fn masked_block(data: &[u8], b: usize, gamma: &[u8]) -> (block: Vec<u8>)
    requires
        16 * b + 16 <= data@.len(),
    ensures
        block@ == mask(block_at(data@, b as int), gamma@),
        block@.len() == 16,
{
    let len = data.len();
    let mut block: Vec<u8> = Vec::new();
    let mut t: usize = 0;
    while t < 16
        invariant
            t <= 16,
            len == data@.len(),
            16 * b + 16 <= data@.len(),
            block@ == mask(block_at(data@, b as int), gamma@).subrange(0, t as int),
        decreases 16 - t,
    {
        let v = data[16 * b + t];
        let m = if t < gamma.len() {
            v ^ gamma[t]
        } else {
            v
        };
        block.push(m);
        t += 1;
        assert(block@ =~= mask(block_at(data@, b as int), gamma@).subrange(0, t as int));
    }
    assert(block@ =~= mask(block_at(data@, b as int), gamma@));
    block
}

// ---------------------------------------------------------------------------
// Encryptor
// ---------------------------------------------------------------------------
/// Encryption of shards in place of their plaintext.
pub trait Encryptor {
    /// The ciphertext of a shard.
    spec fn encrypted(&self, chunk: Seq<u8>) -> Seq<u8>;

    /// The plaintext of a ciphertext, or `None` where it is refused.
    spec fn decrypted(&self, chunk: Seq<u8>) -> Option<Seq<u8>>;

    /// What decryption gives back of the encryption of a shard.
    spec fn recovered(&self, chunk: Seq<u8>) -> Seq<u8>;

    /// Encrypts a shard.
    fn encrypt_chunk(&self, chunk: &[u8]) -> (out: Vec<u8>)
        requires
            chunk@.len() + 16 <= usize::MAX,
        ensures
            out@ == self.encrypted(chunk@),
    ;

    /// Decrypts a shard; what `encrypt_chunk` made of a shard comes back as
    /// `recovered` of that shard.
    fn decrypt_chunk(&self, chunk: &[u8]) -> (out: Result<Vec<u8>, DecryptionError>)
        ensures
            (out is Ok) == (self.decrypted(chunk@) is Some),
            out matches Ok(v) ==> Some(v@) == self.decrypted(chunk@),
            forall|p: Seq<u8>|
                #![trigger self.encrypted(p)]
                self.encrypted(p) == chunk@ ==> out is Ok && out->Ok_0@ == self.recovered(p),
    ;
}

/// A ciphertext that is the encryption of no plaintext under an encryptor.
pub open spec fn no_plaintext<E: Encryptor>(e: &E, chunk: Seq<u8>) -> bool {
    forall|p: Seq<u8>| #[trigger] e.encrypted(p) != chunk
}

/// The Kuznyechik shard encryptor: a 256-bit key and a gamma.
pub struct KuznechikEncryptor {
    key: Vec<u8>,
    gamma: Vec<u8>,
}

impl KuznechikEncryptor {
    #[verifier::type_invariant]
    spec fn key_is_256_bits(self) -> bool {
        self.key@.len() == 32
    }

    /// The cipher key.
    pub closed spec fn key(self) -> Seq<u8> {
        self.key@
    }

    /// The gamma that masks every block.
    pub closed spec fn gamma(self) -> Seq<u8> {
        self.gamma@
    }

    /// The gamma that masks every block.
    pub fn get_gamma(&self) -> (g: &Vec<u8>)
        ensures
            g@ == self.gamma(),
    {
        &self.gamma
    }

    /// Derives the key from a secret (a password or a stored token) and a
    /// salt with Argon2, and keeps the gamma. Fails where Argon2 fails: for a
    /// salt shorter than eight bytes, and for a salt or a secret longer than
    /// `0xFFFFFFFF` bytes.
    pub fn from_secrets(secret: &[u8], gamma: Vec<u8>, salt: &[u8]) -> (r: Result<
        KuznechikEncryptor,
        InitializationError,
    >)
        ensures
            (r is Ok) == (8 <= salt@.len() <= 0xFFFFFFFF && secret@.len() <= 0xFFFFFFFF),
            r matches Ok(e) ==> e.key() == argon2_key(secret@, salt@, 32) && e.gamma() == gamma@,
    {
        let mut key: Vec<u8> = Vec::new();
        let mut i: usize = 0;
        while i < 32
            invariant
                i <= 32,
                key@.len() == i,
            decreases 32 - i,
        {
            key.push(0u8);
            i += 1;
        }
        match argon2_hash_into(secret, salt, &mut key) {
            Ok(()) => Ok(KuznechikEncryptor { key, gamma }),
            Err(e) => Err(InitializationError(e)),
        }
    }

    /// Builds the encryptor from stored metadata: the gamma, the salt and the
    /// token are Base64 text; the key is derived from the token and the salt.
    pub fn from_metadata(metadata: &EncryptionMetadata) -> (r: Result<
        KuznechikEncryptor,
        InitializationError,
    >)
        ensures
            r matches Ok(e) ==> exists|salt: Seq<u8>, token: Seq<u8>|
                base64_of(e.gamma()) == metadata.gamma@ && base64_of(salt) == metadata.salt@
                    && base64_of(token) == metadata.token@ && #[trigger] argon2_key(
                    token,
                    salt,
                    32,
                ) == e.key(),
            (forall|g: Seq<u8>| base64_of(g) != metadata.gamma@) ==> r is Err,
            (forall|s: Seq<u8>| base64_of(s) != metadata.salt@) ==> r is Err,
            (forall|t: Seq<u8>| base64_of(t) != metadata.token@) ==> r is Err,
            forall|g: Seq<u8>, salt: Seq<u8>, token: Seq<u8>|
                #![trigger base64_of(g), base64_of(salt), base64_of(token)]
                base64_of(g) == metadata.gamma@ && base64_of(salt) == metadata.salt@ && base64_of(
                    token,
                ) == metadata.token@ ==> ((r is Ok) == (8 <= salt.len() <= 0xFFFFFFFF
                    && token.len() <= 0xFFFFFFFF)),
    {
        let gamma = match base64_decode(&metadata.gamma) {
            Ok(v) => v,
            Err(e) => return Err(InitializationError(e)),
        };
        let salt = match base64_decode(&metadata.salt) {
            Ok(v) => v,
            Err(e) => return Err(InitializationError(e)),
        };
        let token = match base64_decode(&metadata.token) {
            Ok(v) => v,
            Err(e) => return Err(InitializationError(e)),
        };
        let r = Self::from_secrets(&token, gamma, &salt);
        assert(r matches Ok(e) ==> argon2_key(token@, salt@, 32) == e.key());
        r
    }

    /// Fills the gamma with fresh random bytes and draws a new 32-byte token,
    /// and returns the metadata to store in place of `stored`, every field
    /// Base64 text: the new gamma, the salt of `stored` as it was, and the
    /// new token. A stored salt that is not Base64 text is refused. The key
    /// itself is not derived anew.
    pub fn regenerate_gamma_and_token(&mut self, stored: &EncryptionMetadata) -> (r: Result<
        EncryptionMetadata,
        GammaRegenerationError,
    >)
        ensures
            final(self).key() == old(self).key(),
            final(self).gamma().len() == old(self).gamma().len(),
            r matches Ok(m) ==> m.gamma@ == base64_of(final(self).gamma()) && m.salt@
                == stored.salt@ && m.token@.len() == 44 && exists|t: Seq<u8>|
                t.len() == 32 && #[trigger] base64_of(t) == m.token@,
            (r is Ok) == (exists|s: Seq<u8>| base64_of(s) == stored.salt@),
    {
        proof {
            use_type_invariant(&*self);
        }
        let mut gamma = copy_bytes(self.gamma.as_slice());
        fill_random(&mut gamma);
        self.gamma = gamma;
        let mut token: Vec<u8> = Vec::new();
        let mut i: usize = 0;
        while i < 32
            invariant
                i <= 32,
                token@.len() == i,
            decreases 32 - i,
        {
            token.push(0u8);
            i += 1;
        }
        fill_random(&mut token);
        match base64_decode(&stored.salt) {
            Ok(_) => {},
            Err(e) => {
                proof {
                    assert forall|s: Seq<u8>| base64_of(s) != stored.salt@ by {
                        if base64_of(s) == stored.salt@ {
                        }
                    }
                }
                return Err(GammaRegenerationError(e));
            },
        };
        let token_text = base64_encode(&token);
        proof {
            lemma_base64_32_len(token@);
        }
        assert(token@.len() == 32 && base64_of(token@) == token_text@);
        Ok(
            EncryptionMetadata {
                gamma: base64_encode(self.gamma.as_slice()),
                salt: copy_bytes(stored.salt.as_slice()),
                token: token_text,
            },
        )
    }
}

proof fn lemma_base64_len(s: Seq<u8>)
    ensures
        base64_of(s).len() == 4 * ((s.len() + 2) / 3),
    decreases s.len(),
{
    if s.len() >= 3 {
        lemma_base64_len(s.skip(3));
    }
}

proof fn lemma_base64_32_len(s: Seq<u8>)
    requires
        s.len() == 32,
    ensures
        base64_of(s).len() == 44,
{
    lemma_base64_len(s);
}

impl Encryptor for KuznechikEncryptor {
    open spec fn encrypted(&self, chunk: Seq<u8>) -> Seq<u8> {
        kuznechik_encrypted(self.key(), self.gamma(), chunk)
    }

    open spec fn decrypted(&self, chunk: Seq<u8>) -> Option<Seq<u8>> {
        if chunk.len() % 16 == 0 {
            Some(kuznechik_decrypted(self.key(), self.gamma(), chunk))
        } else {
            None
        }
    }

    open spec fn recovered(&self, chunk: Seq<u8>) -> Seq<u8> {
        pad16(chunk)
    }

    fn encrypt_chunk(&self, chunk: &[u8]) -> (out: Vec<u8>) {
        proof {
            use_type_invariant(self);
        }
        let padded = pad_to_blocks(chunk);
        let n = padded.len() / 16;
        let mut out: Vec<u8> = Vec::new();
        let ghost expected = kuznechik_encrypted(self.key@, self.gamma@, chunk@);
        let mut b: usize = 0;
        while b < n
            invariant
                n == padded@.len() / 16,
                padded@.len() % 16 == 0,
                padded@ == pad16(chunk@),
                self.key@.len() == 32,
                expected == kuznechik_encrypted(self.key@, self.gamma@, chunk@),
                expected.len() == padded@.len(),
                b <= n,
                out@ == expected.subrange(0, 16 * b as int),
            decreases n - b,
        {
            let block = masked_block(padded.as_slice(), b, self.gamma.as_slice());
            let enc = kuznyechik_encrypt_block(self.key.as_slice(), block.as_slice());
            let mut t: usize = 0;
            while t < 16
                invariant
                    t <= 16,
                    b < n,
                    n == padded@.len() / 16,
                    padded@.len() % 16 == 0,
                    padded@ == pad16(chunk@),
                    expected == kuznechik_encrypted(self.key@, self.gamma@, chunk@),
                    expected.len() == padded@.len(),
                    enc@ == kuznyechik_encrypt(self.key@, block@),
                    enc@.len() == 16,
                    block@ == mask(block_at(padded@, b as int), self.gamma@),
                    out@ == expected.subrange(0, 16 * b + t),
                decreases 16 - t,
            {
                proof {
                    lemma_block_index(16 * b + t, b as int);
                    assert(expected[16 * b + t] == enc@[t as int]);
                }
                out.push(enc[t]);
                t += 1;
                assert(out@ =~= expected.subrange(0, 16 * b + t));
            }
            b += 1;
        }
        assert(out@ =~= expected);
        out
    }

    /// Refuses a ciphertext whose length is not a multiple of sixteen with
    /// [`DECRYPTION_LENGTH_MESSAGE`].
    fn decrypt_chunk(&self, chunk: &[u8]) -> (out: Result<Vec<u8>, DecryptionError>)
        ensures
            out matches Err(e) ==> e.0@ == DECRYPTION_LENGTH_MESSAGE@,
    {
        proof {
            use_type_invariant(self);
        }
        if chunk.len() % 16 != 0 {
            proof {
                assert forall|p: Seq<u8>| #[trigger] self.encrypted(p) != chunk@ by {
                    lemma_padded_len(p.len());
                }
            }
            return Err(DecryptionError(String::from_str(DECRYPTION_LENGTH_MESSAGE)));
        }
        let n = chunk.len() / 16;
        let mut out: Vec<u8> = Vec::new();
        let ghost expected = kuznechik_decrypted(self.key@, self.gamma@, chunk@);
        let mut b: usize = 0;
        while b < n
            invariant
                n == chunk@.len() / 16,
                chunk@.len() % 16 == 0,
                self.key@.len() == 32,
                expected == kuznechik_decrypted(self.key@, self.gamma@, chunk@),
                b <= n,
                out@ == expected.subrange(0, 16 * b as int),
                forall|p: Seq<u8>|
                    #![trigger kuznechik_encrypted(self.key@, self.gamma@, p)]
                    kuznechik_encrypted(self.key@, self.gamma@, p) == chunk@ ==> out@ == pad16(
                        p,
                    ).subrange(0, 16 * b as int),
            decreases n - b,
        {
            let block = copy_block(chunk, b);
            let dec = kuznyechik_decrypt_block(self.key.as_slice(), block.as_slice());
            proof {
                assert(dec@ =~= dec_block(self.key@, block_at(chunk@, b as int)));
            }
            let plain = masked_block(dec.as_slice(), 0, self.gamma.as_slice());
            proof {
                assert(block_at(dec@, 0) =~= dec@);
                assert forall|p: Seq<u8>|
                    #![trigger kuznechik_encrypted(self.key@, self.gamma@, p)]
                    kuznechik_encrypted(self.key@, self.gamma@, p) == chunk@ implies plain@
                        == block_at(pad16(p), b as int) by {
                    let d = pad16(p);
                    let m = mask(block_at(d, b as int), self.gamma@);
                    assert forall|t: int| 0 <= t < 16 implies block@[t] == enc_block(
                        self.key@,
                        m,
                    )[t] by {
                        lemma_block_index(16 * b + t, b as int);
                    }
                    assert(block@ =~= enc_block(self.key@, m));
                    assert(dec@ == m);
                    lemma_mask_twice(block_at(d, b as int), self.gamma@);
                }
            }
            let mut t: usize = 0;
            while t < 16
                invariant
                    t <= 16,
                    b < n,
                    n == chunk@.len() / 16,
                    chunk@.len() % 16 == 0,
                    expected == kuznechik_decrypted(self.key@, self.gamma@, chunk@),
                    plain@ == mask(dec_block(self.key@, block_at(chunk@, b as int)), self.gamma@),
                    plain@.len() == 16,
                    out@ == expected.subrange(0, 16 * b + t),
                    forall|p: Seq<u8>|
                        #![trigger kuznechik_encrypted(self.key@, self.gamma@, p)]
                        kuznechik_encrypted(self.key@, self.gamma@, p) == chunk@ ==> out@
                            == pad16(p).subrange(0, 16 * b + t) && plain@ == block_at(
                            pad16(p),
                            b as int,
                        ),
                decreases 16 - t,
            {
                proof {
                    lemma_block_index(16 * b + t, b as int);
                }
                out.push(plain[t]);
                t += 1;
                assert(out@ =~= expected.subrange(0, 16 * b + t));
                assert forall|p: Seq<u8>|
                    #![trigger kuznechik_encrypted(self.key@, self.gamma@, p)]
                    kuznechik_encrypted(self.key@, self.gamma@, p) == chunk@ implies out@
                        == pad16(p).subrange(0, 16 * b + t) by {
                    lemma_padded_len(p.len());
                    assert(out@ =~= pad16(p).subrange(0, 16 * b + t));
                }
            }
            b += 1;
        }
        assert(out@ =~= expected);
        assert forall|p: Seq<u8>|
            #![trigger self.encrypted(p)]
            self.encrypted(p) == chunk@ implies out@ == pad16(p) by {
            assert(out@ =~= pad16(p));
        }
        Ok(out)
    }
}

/// The folder of the metadata file in the user's home directory.
pub const APP_DIR: &'static str = ".leaf";

/// The name of the metadata file.
pub const METADATA_PATH: &'static str = "metadata.bin";

/// The path of the metadata file for a home directory.
pub fn metadata_path(home: &str) -> (p: String)
    ensures
        p@ == join_path(join_path(home@, APP_DIR@), METADATA_PATH@),
{
    let dir = join(home, APP_DIR);
    join(dir.as_str(), METADATA_PATH)
}

/// The message of the decryption error for a ciphertext whose length is not
/// a multiple of sixteen.
pub const DECRYPTION_LENGTH_MESSAGE: &'static str = "Invalid encrypted data length";

/// The gamma, salt and token of an encryptor, each as Base64 text, as they
/// are kept in the metadata file.
pub struct EncryptionMetadata {
    pub gamma: Vec<u8>,
    pub salt: Vec<u8>,
    pub token: Vec<u8>,
}

impl EncryptionMetadata {
    /// Draws a random 16-byte gamma, 32-byte salt and 32-byte token and
    /// writes them as Base64 text.
    pub fn generate() -> (m: EncryptionMetadata)
        ensures
            exists|g: Seq<u8>, s: Seq<u8>, t: Seq<u8>|
                #![trigger base64_of(g), base64_of(s), base64_of(t)]
                g.len() == 16 && s.len() == 32 && t.len() == 32 && m.gamma@ == base64_of(g)
                    && m.salt@ == base64_of(s) && base64_of(t) == m.token@,
    {
        let mut gamma = zeros(16);
        let mut salt = zeros(32);
        let mut token = zeros(32);
        fill_random(&mut gamma);
        fill_random(&mut salt);
        fill_random(&mut token);
        let m = EncryptionMetadata {
            gamma: base64_encode(gamma.as_slice()),
            salt: base64_encode(salt.as_slice()),
            token: base64_encode(token.as_slice()),
        };
        assert(base64_of(gamma@) == m.gamma@ && base64_of(salt@) == m.salt@ && base64_of(token@)
            == m.token@);
        m
    }
}

// ---------------------------------------------------------------------------
// Hashing
// ---------------------------------------------------------------------------
/// The name of a shard: the lower-case hexadecimal Streebog-256 digest.
pub open spec fn streebog_hex(chunk: Seq<u8>) -> Seq<char> {
    hex_lower(streebog256(chunk))
}

/// Naming of shards by a digest.
pub trait Hasher {
    /// The name of a shard.
    spec fn hash_of(&self, chunk: Seq<u8>) -> Seq<char>;

    /// Computes the name of a shard.
    fn calc_hash_for_chunk(&self, chunk: &[u8]) -> (h: String)
        ensures
            h@ == self.hash_of(chunk@),
    ;
}

/// The Streebog-256 hasher.
pub struct StreebogHasher;

impl StreebogHasher {
    pub fn new() -> (h: StreebogHasher) {
        StreebogHasher
    }
}

impl Hasher for StreebogHasher {
    open spec fn hash_of(&self, chunk: Seq<u8>) -> Seq<char> {
        streebog_hex(chunk)
    }

    fn calc_hash_for_chunk(&self, chunk: &[u8]) -> (h: String) {
        calc_hash(chunk)
    }
}

/// The lower-case hexadecimal Streebog-256 digest of a shard.
pub fn calc_hash(chunk: &[u8]) -> (h: String)
    ensures
        h@ == streebog_hex(chunk@),
{
    let digest = streebog256_digest(chunk);
    hex_encode(digest.as_slice())
}

/// The raw 32-byte Streebog-256 digest of a shard.
pub fn calc_digest(chunk: &[u8]) -> (d: Vec<u8>)
    ensures
        d@ == streebog256(chunk@),
        d@.len() == 32,
{
    streebog256_digest(chunk)
}

// ---------------------------------------------------------------------------
// Errors
// ---------------------------------------------------------------------------
/// A ciphertext that cannot be decrypted.
#[derive(Debug, Clone)]
pub struct DecryptionError(pub String);

/// The encryptor could not be set up.
#[derive(Debug, Clone)]
pub struct InitializationError(pub String);

/// The gamma could not be renewed.
#[derive(Debug, Clone)]
pub struct GammaRegenerationError(pub String);

/// A shard could not be encrypted.
#[derive(Debug, Clone)]
pub struct EncryptionError(pub String);

} // verus!
