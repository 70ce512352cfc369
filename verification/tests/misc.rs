use leaf::ige::{decrypt_chunk as ige_decrypt_chunk, encrypt_chunk as ige_encrypt_chunk, IGE_CHUNK_LEN};
use leaf::aes::{Aes256Encryptor, NONCE_LEN};
use leaf::args::{Action, Args};
use leaf::crypto::{calc_digest, calc_hash, KuznechikEncryptor as BlockEncryptor};
use leaf::encoding::hex_ascii;
use leaf::meta::MetaFileInfo;
use leaf::notify::{notify_socket_address, watchdog_interval_ms, READY_STATE, STOPPING_STATE, WATCHDOG_STATE};
use leaf::ofb::{KuznechikEncryptor, GAMMA_LEN, PASSWORD_LEN};
use leaf::parts::{FileHashes, FileParts, Hashes};
use leaf::sha::Sha3_256Hasher;
use leaf::sharer::{SecretSharer, ShamirSecretSharer, AMOUNT_OF_CHUNKS};

#[test]
fn notify_socket_of_a_path_or_an_abstract_name() {
    assert_eq!(notify_socket_address(None), None);
    assert_eq!(notify_socket_address(Some(String::new())), None);
    assert_eq!(notify_socket_address(Some("/run/systemd/notify".to_string())), Some("/run/systemd/notify".to_string()));
    assert_eq!(notify_socket_address(Some("@leaf".to_string())), Some("\0leaf".to_string()));
    assert_eq!(notify_socket_address(Some("@".to_string())), Some("\0".to_string()));
    assert_eq!(READY_STATE, "READY=1");
    assert_eq!(STOPPING_STATE, "STOPPING=1");
    assert_eq!(WATCHDOG_STATE, "WATCHDOG=1");
}

#[test]
fn watchdog_notifies_at_half_the_timeout() {
    assert_eq!(watchdog_interval_ms(30_000_000), 15_000);
    assert_eq!(watchdog_interval_ms(1_999), 0);
    assert_eq!(watchdog_interval_ms(0), 0);
    assert_eq!(watchdog_interval_ms(u64::MAX), u64::MAX / 1000 / 2);
}

#[test]
fn args_keep_the_action_and_the_file() {
    let a = Args::new(Action::Receive, "notes.txt".to_string());
    assert_eq!(a.get_action(), Action::Receive);
    assert_eq!(a.get_file(), "notes.txt");
    assert_eq!(Args::new(Action::Send, String::new()).get_action(), Action::Send);
}

#[test]
fn meta_file_info_gives_back_its_parts() {
    let m = MetaFileInfo::new(vec![Some(vec![1]), None], vec![None]);
    let (d, r) = m.deconstruct();
    assert_eq!(d, vec![Some(vec![1]), None]);
    assert_eq!(r, vec![None]);
}

#[test]
fn sha3_digests() {
    let hex = |d: Vec<u8>| d.iter().map(|b| format!("{:02x}", b)).collect::<String>();
    assert_eq!(
        hex(Sha3_256Hasher::calc_hash_for_chunk(b"").unwrap()),
        "a7ffc6f8bf1ed76651c14756a061d662f580ff4de43b49fa82d80a4b80f8434a"
    );
    assert_eq!(
        hex(Sha3_256Hasher::calc_hash_for_chunk(b"abc").unwrap()),
        "3a985da74fe225b2045c172d6bd390bd855f086e3e9d525b46bfe24511431532"
    );
}

#[test]
fn digest_comparison() {
    assert!(Sha3_256Hasher::is_hash_equal_to_model(b"abc", b"abc"));
    assert!(!Sha3_256Hasher::is_hash_equal_to_model(b"abc", b"abd"));
    assert!(!Sha3_256Hasher::is_hash_equal_to_model(b"abc", b"ab"));
    assert!(Sha3_256Hasher::is_hash_equal_to_model(b"", b""));
}

#[test]
fn shamir_recovers_from_a_threshold_of_shares() {
    let sharer = ShamirSecretSharer::new(3);
    let secret = b"the content of a file".to_vec();
    let shares = sharer.split_into_chunks(secret.clone());
    assert_eq!(shares.len(), AMOUNT_OF_CHUNKS);
    for (i, s) in shares.iter().enumerate() {
        assert_eq!(s.len(), secret.len() + 1);
        assert_eq!(s[0] as usize, i + 1);
    }
    assert_eq!(sharer.recover_from_chunks(shares.clone()), secret);
    let some = vec![shares[4].clone(), shares[0].clone(), shares[2].clone()];
    assert_eq!(sharer.recover_from_chunks(some), secret);
}

#[test]
fn ofb_roundtrip() {
    assert_eq!(PASSWORD_LEN, 32);
    assert_eq!(GAMMA_LEN, 32);
    let e = KuznechikEncryptor::new(b"0123456789abcdef0123456789abcdef".to_vec(), vec![0x11; 32]);
    let chunk = b"a shard in output feedback mode".to_vec();
    let c = e.encrypt_chunk(&chunk).unwrap();
    assert_eq!(c.len(), chunk.len());
    assert_ne!(c, chunk);
    assert_eq!(e.decrypt_chunk(&c).unwrap(), chunk);
    assert_eq!(e.encrypt_chunk(&[]).unwrap(), Vec::<u8>::new());
}

#[test]
fn ofb_refuses_a_password_that_is_not_text() {
    let e = KuznechikEncryptor::new(vec![0xff; 32], vec![0x11; 32]);
    assert!(e.encrypt_chunk(b"x").is_err());
    assert!(e.decrypt_chunk(b"x").is_err());
}

#[test]
fn aes_roundtrip_with_a_fresh_nonce() {
    let e = Aes256Encryptor::new(vec![0x42; 32]);
    let chunk = b"a shard sealed with AES-256-GCM".to_vec();
    let c = e.encrypt_chunk(&chunk).unwrap();
    assert_eq!(c.len(), NONCE_LEN + chunk.len() + 16);
    assert_eq!(e.decrypt_chunk(&c).unwrap(), chunk);
    let c2 = e.encrypt_chunk(&chunk).unwrap();
    assert_ne!(c[..NONCE_LEN], c2[..NONCE_LEN]);
}

#[test]
fn aes_refuses_a_forged_shard() {
    let e = Aes256Encryptor::new(vec![0x42; 32]);
    let mut c = e.encrypt_chunk(b"shard").unwrap();
    let last = c.len() - 1;
    c[last] ^= 1;
    assert!(e.decrypt_chunk(&c).is_err());
    let other = Aes256Encryptor::new(vec![0x43; 32]);
    let c = e.encrypt_chunk(b"shard").unwrap();
    assert!(other.decrypt_chunk(&c).is_err());
}

#[test]
fn file_parts_split_and_merge() {
    let chunks = vec![vec![1], vec![2], vec![3], vec![4]];
    let (data, recovery) = FileParts::from_chunks(chunks);
    assert_eq!(data.get_data_cloned(), vec![vec![1], vec![2]]);
    assert_eq!(recovery.get_data_cloned(), vec![vec![3], vec![4]]);
    assert_eq!(data.len(), 2);
    assert!(data.get_hashes_cloned().is_empty());
    let merged = data.merge(recovery);
    assert_eq!(merged.len(), 4);
    let (a, b) = FileParts::split_metadata(merged);
    assert_eq!(a.get_data_cloned(), vec![vec![1], vec![2]]);
    assert_eq!(b.get_data_cloned(), vec![vec![3], vec![4]]);
}

#[test]
fn file_parts_hashes_are_hexadecimal_streebog_digests() {
    let hx = |d: &[u8]| calc_hash(d).into_bytes();
    let mut p = FileParts::new(vec![b"x".to_vec(), b"y".to_vec()], vec![vec![0u8]]);
    p.calc_hashes();
    assert_eq!(p.get_hashes_cloned(), vec![hx(b"x"), hx(b"y")]);
    assert_eq!(p.get_hashes_cloned()[0].len(), 64);
    assert!(p.get_hashes_cloned()[0].iter().all(|c| c.is_ascii_digit() || (b'a'..=b'f').contains(c)));
    let h = FileHashes::new(&vec![b"x".to_vec()], &vec![b"y".to_vec(), b"z".to_vec()]);
    let (d, r) = h.into_digests();
    assert_eq!(d, vec![hx(b"x")]);
    assert_eq!(r, vec![hx(b"y"), hx(b"z")]);
    let (d2, r2) = FileHashes::from_digests(d.clone(), r.clone()).into_digests();
    assert_eq!((d2, r2), (d, r));
}

#[test]
fn hex_text_of_bytes() {
    assert_eq!(hex_ascii(&[0x00, 0x0f, 0xa0, 0xff]), b"000fa0ff".to_vec());
    assert_eq!(hex_ascii(&calc_digest(b"x")), calc_hash(b"x").into_bytes());
    assert_eq!(hex_ascii(&[]), Vec::<u8>::new());
}

#[test]
fn file_parts_encrypt_and_decrypt() {
    let e = BlockEncryptor::from_secrets(b"token", vec![8; 16], b"saltsalt").unwrap();
    let mut p = FileParts::new(vec![vec![1u8; 16], vec![2u8; 32]], vec![vec![9]]);
    p.encrypt(&e).unwrap();
    let enc = p.get_data_cloned();
    assert_eq!(enc[0].len(), 16);
    assert_eq!(enc[1].len(), 32);
    assert_ne!(enc[0], vec![1u8; 16]);
    p.decrypt(&e).unwrap();
    assert_eq!(p.get_data_cloned(), vec![vec![1u8; 16], vec![2u8; 32]]);
    assert_eq!(p.get_hashes_cloned(), vec![vec![9]]);
}

#[test]
fn ige_shards_are_one_block_of_4096_bytes() {
    let key = [7u8; 32];
    let chunk = vec![1u8; IGE_CHUNK_LEN];
    let a = ige_encrypt_chunk(&key, &chunk);
    let b = ige_encrypt_chunk(&key, &chunk);
    assert_eq!(a.len(), 4096);
    assert_ne!(a, chunk);
    assert_ne!(a, b);
    let d1 = ige_decrypt_chunk(&key, &a);
    let d2 = ige_decrypt_chunk(&key, &a);
    assert_eq!(d1.len(), 4096);
    assert_eq!(d1, d2);
    assert_ne!(ige_decrypt_chunk(&[7u8; 16], &a), d1);
}

#[test]
fn aes_ciphertext_is_nonce_shard_and_tag() {
    let e = Aes256Encryptor::new(vec![0x42; 32]);
    for len in [0usize, 1, 16, 100] {
        let c = e.encrypt_chunk(&vec![9u8; len]).unwrap();
        assert_eq!(c.len(), len + 28);
        assert_eq!(e.decrypt_chunk(&c).unwrap(), vec![9u8; len]);
    }
}

#[test]
fn aes_refuses_a_shard_shorter_than_nonce_and_tag() {
    let e = Aes256Encryptor::new(vec![0x42; 32]);
    assert!(e.decrypt_chunk(&[0u8; 27]).is_err());
    assert!(e.decrypt_chunk(&[0u8; 12]).is_err());
}
