use leaf::crypto::{
    calc_digest, calc_hash, EncryptionMetadata, Encryptor, Hasher, KuznechikEncryptor,
    StreebogHasher, DECRYPTION_LENGTH_MESSAGE,
};
use leaf::encoding::{base64_decode, base64_encode};

fn gost_engine_message() -> Vec<u8> {
    b"12345670".repeat(128)
}

const GOST_ENGINE_DIGEST: &str = "1906512b86a1283c68cec8419e57113efc562a1d0e95d8f4809542900c416fe4";

fn encryptor() -> KuznechikEncryptor {
    KuznechikEncryptor::from_secrets(b"token of the user", vec![0x5a; 16], b"salt of the file").unwrap()
}

#[test]
fn streebog_hash_is_the_hex_digest() {
    assert_eq!(calc_hash(&gost_engine_message()), GOST_ENGINE_DIGEST);
}

#[test]
fn streebog_digest_is_the_raw_digest() {
    let d = calc_digest(&gost_engine_message());
    assert_eq!(d.len(), 32);
    assert_eq!(d[0], 0x19);
    assert_eq!(d[31], 0xe4);
    let hex: String = d.iter().map(|b| format!("{:02x}", b)).collect();
    assert_eq!(hex, GOST_ENGINE_DIGEST);
}

#[test]
fn streebog_hasher_names_a_shard_by_its_digest() {
    let h = StreebogHasher::new();
    assert_eq!(h.calc_hash_for_chunk(&gost_engine_message()), GOST_ENGINE_DIGEST);
    assert_eq!(h.calc_hash_for_chunk(b"").len(), 64);
    assert_ne!(h.calc_hash_for_chunk(b"a"), h.calc_hash_for_chunk(b"b"));
}

#[test]
fn base64_is_the_standard_alphabet_with_padding() {
    assert_eq!(base64_encode(b"hello"), b"aGVsbG8=".to_vec());
    assert_eq!(base64_encode(b"hi"), b"aGk=".to_vec());
    assert_eq!(base64_encode(b"abc"), b"YWJj".to_vec());
    assert_eq!(base64_encode(b""), b"".to_vec());
    assert_eq!(base64_encode(&[0xfb, 0xff]), b"+/8=".to_vec());
    assert_eq!(base64_decode(b"aGVsbG8=").unwrap(), b"hello".to_vec());
    assert!(base64_decode(b"aGVsbG8").is_err());
    assert!(base64_decode(b"!!!!").is_err());
}

#[test]
fn key_derivation_refuses_a_short_salt() {
    assert!(KuznechikEncryptor::from_secrets(b"token", vec![1; 16], b"short").is_err());
}

#[test]
fn encryption_pads_to_whole_blocks() {
    let e = encryptor();
    assert_eq!(e.encrypt_chunk(b"").len(), 0);
    assert_eq!(e.encrypt_chunk(b"hello").len(), 16);
    assert_eq!(e.encrypt_chunk(&[9u8; 16]).len(), 16);
    assert_eq!(e.encrypt_chunk(&[9u8; 17]).len(), 32);
}

#[test]
fn encryption_changes_the_shard() {
    let e = encryptor();
    let chunk = [0u8; 16];
    assert_ne!(e.encrypt_chunk(&chunk), chunk.to_vec());
}

#[test]
fn decryption_gives_back_the_padded_shard() {
    let e = encryptor();
    let chunk = b"a shard of a file, twenty-nine".to_vec();
    let encrypted = e.encrypt_chunk(&chunk);
    let decrypted = e.decrypt_chunk(&encrypted).unwrap();
    assert_eq!(decrypted.len(), 32);
    assert_eq!(&decrypted[..chunk.len()], &chunk[..]);
    assert!(decrypted[chunk.len()..].iter().all(|b| *b == 0));
}

#[test]
fn decryption_refuses_a_partial_block() {
    let e = encryptor();
    let err = e.decrypt_chunk(&[1u8; 17]).unwrap_err();
    assert_eq!(err.0, DECRYPTION_LENGTH_MESSAGE);
    assert_eq!(DECRYPTION_LENGTH_MESSAGE, "Invalid encrypted data length");
}

#[test]
fn equal_secrets_give_equal_keys() {
    let a = encryptor();
    let b = encryptor();
    assert_eq!(a.encrypt_chunk(b"same"), b.encrypt_chunk(b"same"));
    let c = KuznechikEncryptor::from_secrets(b"another token", vec![0x5a; 16], b"salt of the file").unwrap();
    assert_ne!(a.encrypt_chunk(b"same"), c.encrypt_chunk(b"same"));
}

#[test]
fn gamma_masks_each_block() {
    let a = KuznechikEncryptor::from_secrets(b"token", vec![0; 16], b"saltsalt").unwrap();
    let b = KuznechikEncryptor::from_secrets(b"token", vec![1; 16], b"saltsalt").unwrap();
    assert_eq!(a.get_gamma(), &vec![0u8; 16]);
    assert_ne!(a.encrypt_chunk(b"block"), b.encrypt_chunk(b"block"));
}

#[test]
fn generated_metadata_is_base64_of_random_secrets() {
    let m = EncryptionMetadata::generate();
    assert_eq!(base64_decode(&m.gamma).unwrap().len(), 16);
    assert_eq!(base64_decode(&m.salt).unwrap().len(), 32);
    assert_eq!(base64_decode(&m.token).unwrap().len(), 32);
}

#[test]
fn encryptor_from_metadata_roundtrips() {
    let m = EncryptionMetadata::generate();
    let e = KuznechikEncryptor::from_metadata(&m).unwrap();
    assert_eq!(base64_encode(e.get_gamma()), m.gamma);
    let c = e.encrypt_chunk(b"secret shard");
    assert_eq!(&e.decrypt_chunk(&c).unwrap()[..12], b"secret shard");
}

#[test]
fn encryptor_from_metadata_refuses_bad_base64() {
    let m = EncryptionMetadata { gamma: b"***".to_vec(), salt: b"c2FsdHNhbHQ=".to_vec(), token: b"dG9rZW4=".to_vec() };
    assert!(KuznechikEncryptor::from_metadata(&m).is_err());
}

#[test]
fn regenerating_the_gamma_keeps_the_key_and_the_salt() {
    let m = EncryptionMetadata::generate();
    let mut e = KuznechikEncryptor::from_metadata(&m).unwrap();
    let renewed = e.regenerate_gamma_and_token(&m).unwrap();
    assert_eq!(renewed.salt, m.salt);
    assert_eq!(renewed.token.len(), 44);
    assert_eq!(base64_decode(&renewed.token).unwrap().len(), 32);
    // the renewed metadata builds an encryptor again
    assert!(KuznechikEncryptor::from_metadata(&renewed).is_ok());
    assert_eq!(base64_encode(e.get_gamma()), renewed.gamma);
    assert_eq!(e.get_gamma().len(), 16);
}

#[test]
fn regenerating_the_gamma_refuses_bad_salt() {
    let m = EncryptionMetadata::generate();
    let mut e = KuznechikEncryptor::from_metadata(&m).unwrap();
    let bad = EncryptionMetadata { gamma: m.gamma.clone(), salt: b"#".to_vec(), token: m.token.clone() };
    assert!(e.regenerate_gamma_and_token(&bad).is_err());
}
