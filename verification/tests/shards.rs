use leaf::crypto::{Encryptor, KuznechikEncryptor};
use leaf::ofb::KuznechikEncryptor as OfbEncryptor;
use leaf::parts::{content_of_received, encrypt_file_shards, UNDECRYPTABLE_BLOCK_MESSAGE};
use leaf::sharing::{calc_amount_of_blocks, calc_block_size, prepare_shards, ReedSolomonSecretSharer};
use leaf::shards::{align_block_size, recover, split, ALIGNMENT, MAX_AMOUNT_OF_BLOCKS, MAX_BLOCK_SIZE, MIN_BLOCK_SIZE};

#[test]
fn block_size_is_held_between_the_bounds_and_aligned() {
    assert_eq!(align_block_size(0), 64);
    assert_eq!(align_block_size(1), 64);
    assert_eq!(align_block_size(64), 64);
    assert_eq!(align_block_size(65), 128);
    assert_eq!(align_block_size(100), 128);
    assert_eq!(align_block_size(1000), 1024);
    assert_eq!(align_block_size(65200), 65216);
    assert_eq!(align_block_size(65216), 65216);
    assert_eq!(align_block_size(1_000_000), 65216);
    assert_eq!(align_block_size(usize::MAX), 65216);
}

#[test]
fn block_size_constants() {
    assert_eq!(MIN_BLOCK_SIZE, 64);
    assert_eq!(MAX_BLOCK_SIZE, 65216);
    assert_eq!(ALIGNMENT, 64);
    assert_eq!(MAX_AMOUNT_OF_BLOCKS, 128);
    assert_eq!(MAX_BLOCK_SIZE % ALIGNMENT, 0);
}

#[test]
fn split_pads_the_last_shard_with_zeros() {
    let (data, recv) = split(b"hello".to_vec(), 0).unwrap();
    assert_eq!(data.len(), 1);
    assert_eq!(recv.len(), 1);
    assert_eq!(data[0].len(), 64);
    assert_eq!(&data[0][..5], b"hello");
    assert!(data[0][5..].iter().all(|b| *b == 0));
    assert_eq!(recv[0].len(), 64);
}

#[test]
fn split_cuts_the_secret_into_shards_of_the_block_size() {
    let secret: Vec<u8> = (0..300u32).map(|i| (i % 251) as u8).collect();
    let (data, recv) = split(secret.clone(), 100).unwrap();
    // block size 128: three shards, the last one holding 44 bytes and padding
    assert_eq!(data.len(), 3);
    assert_eq!(recv.len(), 3);
    assert!(data.iter().all(|d| d.len() == 128));
    assert!(recv.iter().all(|r| r.len() == 128));
    assert_eq!(&data[0][..], &secret[0..128]);
    assert_eq!(&data[1][..], &secret[128..256]);
    assert_eq!(&data[2][..44], &secret[256..300]);
    assert!(data[2][44..].iter().all(|b| *b == 0));
}

#[test]
fn split_of_an_exact_multiple_needs_no_padding() {
    let secret = vec![7u8; 128];
    let (data, recv) = split(secret, 64).unwrap();
    assert_eq!(data, vec![vec![7u8; 64], vec![7u8; 64]]);
    assert_eq!(recv.len(), 2);
}

#[test]
fn recover_after_split_gives_the_secret() {
    let secret: Vec<u8> = (0..1000u32).map(|i| (i * 7 % 256) as u8).collect();
    let (data, recv) = split(secret.clone(), 200).unwrap();
    let content = recover(data, recv).unwrap();
    assert_eq!(content, secret);
}

#[test]
fn recover_removes_only_the_zero_bytes_at_the_end() {
    let data = vec![vec![1u8, 0, 2, 0]];
    let recv = vec![vec![1u8, 0, 2, 0]];
    assert_eq!(recover(data, recv).unwrap(), vec![1u8, 0, 2]);
}

#[test]
fn recover_after_split_of_a_short_secret() {
    let (data, recv) = split(vec![1u8, 2, 3], 64).unwrap();
    assert_eq!(recover(data, recv).unwrap(), vec![1u8, 2, 3]);
}

#[test]
fn recover_of_no_shards_is_empty() {
    assert_eq!(recover(Vec::new(), Vec::new()).unwrap(), Vec::<u8>::new());
}

#[test]
fn split_and_recover_more_than_one_group() {
    // 130 shards of 64 bytes: a group of 128 and a group of 2
    let secret: Vec<u8> = (0..64 * 130u32).map(|i| (i % 256) as u8).collect();
    let (data, recv) = split(secret.clone(), 64).unwrap();
    assert_eq!(data.len(), 130);
    assert_eq!(recv.len(), 130);
    let content = recover(data, recv).unwrap();
    assert_eq!(content, secret);
}

#[test]
fn recovery_shards_are_computed() {
    let secret: Vec<u8> = (1..=64u8).collect();
    let (data, recv) = split(secret, 64).unwrap();
    assert_eq!(data.len(), 1);
    assert_ne!(recv[0], vec![0u8; 64]);
}

#[test]
fn recover_refuses_shards_of_different_lengths() {
    let data = vec![vec![1u8; 64], vec![2u8; 64]];
    let recv = vec![vec![3u8; 64], vec![4u8; 32]];
    assert!(recover(data, recv).is_err());
}

#[test]
fn recover_refuses_empty_shards() {
    let data = vec![Vec::new()];
    let recv = vec![Vec::new()];
    assert!(recover(data, recv).is_err());
}

#[test]
fn recover_joins_uniform_groups() {
    let data = vec![vec![1u8; 4], vec![2u8; 4]];
    let recv = vec![vec![0u8; 4], vec![0u8; 4]];
    assert_eq!(recover(data, recv).unwrap(), vec![1, 1, 1, 1, 2, 2, 2, 2]);
}

#[test]
fn sharing_cuts_a_file_into_blocks_and_recovery_blocks() {
    assert_eq!(calc_block_size(0), 64);
    assert_eq!(calc_block_size(100), 128);
    assert_eq!(calc_block_size(usize::MAX), 2147483648);
    assert_eq!(calc_amount_of_blocks(0, 64), 0);
    assert_eq!(calc_amount_of_blocks(64, 64), 1);
    assert_eq!(calc_amount_of_blocks(65, 64), 2);
    let sharer = ReedSolomonSecretSharer::new();
    let secret: Vec<u8> = (1..=100u8).collect();
    let blocks = sharer.split_into_chunks(&secret, 64).unwrap();
    assert_eq!(blocks.len(), 4);
    assert!(blocks.iter().all(|b| b.len() == 64));
    assert_eq!(&blocks[0][..], &secret[..64]);
    assert_eq!(&blocks[1][..36], &secret[64..]);
    assert!(blocks[1][36..].iter().all(|b| *b == 0));
}

#[test]
fn sharing_recovers_from_the_recovery_blocks_alone() {
    let sharer = ReedSolomonSecretSharer::new();
    let secret: Vec<u8> = (0..1000u32).map(|i| (i % 255 + 1) as u8).collect();
    let blocks = sharer.split_into_chunks(&secret, 100).unwrap();
    let n = blocks.len() / 2;
    let recovered = sharer.recover_from_chunks(blocks[n..].to_vec()).unwrap();
    assert_eq!(recovered, secret);
}

#[test]
fn sharing_recovery_drops_zero_bytes() {
    let sharer = ReedSolomonSecretSharer::new();
    let secret = vec![1u8, 0, 2, 0, 3];
    let blocks = sharer.split_into_chunks(&secret, 0).unwrap();
    assert_eq!(blocks.len(), 2);
    let recovered = sharer.recover_from_chunks(blocks[1..].to_vec()).unwrap();
    assert_eq!(recovered, vec![1, 2, 3]);
}

#[test]
fn sharing_refuses_an_empty_file_and_too_many_blocks() {
    let sharer = ReedSolomonSecretSharer::new();
    assert!(sharer.split_into_chunks(&Vec::new(), 0).is_err());
    assert!(sharer.split_into_chunks(&vec![1u8; 64 * 128], 64).is_ok());
    assert!(sharer.split_into_chunks(&vec![1u8; 64 * 128 + 1], 64).is_err());
}

fn file_encryptor() -> KuznechikEncryptor {
    KuznechikEncryptor::from_secrets(b"token of the user", vec![7; 16], b"salt of the file").unwrap()
}

#[test]
fn prepared_shards_are_the_encrypted_blocks() {
    let e = file_encryptor();
    let secret: Vec<u8> = (1..=150u32).map(|i| i as u8).collect();
    let shards = prepare_shards(&e, &secret, 64).unwrap();
    let blocks = ReedSolomonSecretSharer::new().split_into_chunks(&secret, 64).unwrap();
    assert_eq!(shards.len(), 6);
    for (s, b) in shards.iter().zip(blocks.iter()) {
        assert_eq!(s, &e.encrypt_chunk(b));
        assert_ne!(s, b);
    }
    assert!(prepare_shards(&e, &Vec::new(), 64).is_err());
}

fn ofb_encryptor(password: &[u8]) -> OfbEncryptor {
    OfbEncryptor::new(password.to_vec(), (0..32u8).collect())
}

#[test]
fn file_shards_are_the_blocks_encrypted_in_order() {
    let e = ofb_encryptor(b"password of the user");
    let sharer = ReedSolomonSecretSharer::new();
    let content: Vec<u8> = (1..=100u32).map(|i| i as u8).collect();
    let shards = encrypt_file_shards(&sharer, &e, &content, 64).unwrap();
    let blocks = sharer.split_into_chunks(&content, 64).unwrap();
    assert_eq!(shards.len(), 4);
    for (s, b) in shards.iter().zip(blocks.iter()) {
        assert_eq!(s, &e.encrypt_chunk(b).unwrap());
        assert_eq!(&e.decrypt_chunk(s).unwrap(), b);
    }
}

#[test]
fn file_shards_are_refused_for_a_bad_password_or_file() {
    let sharer = ReedSolomonSecretSharer::new();
    let bad = ofb_encryptor(&[0xff, 0xfe]);
    assert!(encrypt_file_shards(&sharer, &bad, &vec![1u8; 10], 64).is_err());
    let good = ofb_encryptor(b"pw");
    assert!(encrypt_file_shards(&sharer, &good, &Vec::new(), 64).is_err());
}

#[test]
fn received_blocks_give_the_content_back() {
    let e = file_encryptor();
    let secret: Vec<u8> = (1..=100u32).map(|i| i as u8).collect();
    let shards = prepare_shards(&e, &secret, 64).unwrap();
    assert_eq!(content_of_received(&e, shards.clone()).unwrap(), secret);
    // a missing second data block becomes a zero block of the first length
    let mut missing = shards.clone();
    missing[1] = vec![0u8];
    assert_eq!(content_of_received(&e, missing).unwrap(), secret[..64].to_vec());
    // a missing first block has no length yet: recovery refuses the empty block
    let mut first_missing = shards;
    first_missing[0] = Vec::new();
    assert!(content_of_received(&e, first_missing).is_err());
}

#[test]
fn received_blocks_that_do_not_decrypt_are_refused() {
    let e = file_encryptor();
    let e2 = content_of_received(&e, vec![vec![1u8; 15], vec![1u8; 16]]).unwrap_err();
    assert_eq!(e2.0, UNDECRYPTABLE_BLOCK_MESSAGE);
    assert_eq!(content_of_received(&e, Vec::new()).unwrap(), Vec::<u8>::new());
}
