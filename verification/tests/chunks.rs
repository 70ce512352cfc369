use leaf::chunks::{
    ReceivePlan, ReedSolomonChunk, ReedSolomonChunkHash, ReedSolomonChunks, ReedSolomonChunksHashes,
    ShardRequest, INCOMPLETE_MESSAGE, SIZE_MISMATCH_MESSAGE, WRONG_HASH_MESSAGE,
};
use leaf::crypto::{calc_hash, KuznechikEncryptor};
use leaf::message::Message;

fn shard_encryptor() -> KuznechikEncryptor {
    KuznechikEncryptor::from_secrets(b"token", vec![3; 16], b"salt of a file").unwrap()
}

fn hash(value: &str, size: usize) -> ReedSolomonChunkHash {
    ReedSolomonChunkHash { value: value.to_string(), size }
}

#[test]
fn chunk_hash_is_the_digest_and_the_length() {
    let h = ReedSolomonChunkHash::from_chunk(b"shard");
    assert_eq!(h.get_value(), calc_hash(b"shard"));
    assert_eq!(h.get_size(), 5);
    let c = h.clone();
    assert_eq!(c.value, h.value);
    assert_eq!(c.size, h.size);
}

#[test]
fn a_chunk_asks_for_an_offer_and_accepts_only_its_own() {
    let mut c = ReedSolomonChunk::new(vec![1, 2, 3]);
    c.update_hash().unwrap();
    let h = calc_hash(&[1, 2, 3]);
    match c.sending_request() {
        Message::SendingReq(r) => assert_eq!(r, h),
        _ => panic!("expected a request"),
    }
    assert!(c.is_expected_ack(&Message::SendingAck(h.clone()), false));
    assert!(!c.is_expected_ack(&Message::SendingAck(h.clone()), true));
    assert!(!c.is_expected_ack(&Message::SendingAck("other".to_string()), false));
    assert!(!c.is_expected_ack(&Message::SendingReq(h.clone()), false));
}

#[test]
fn a_chunk_is_delivered_with_its_hash() {
    let mut c = ReedSolomonChunk::new(vec![4, 5]);
    c.update_hash().unwrap();
    let (m, h) = c.into_delivery();
    assert_eq!(h.value, calc_hash(&[4, 5]));
    assert_eq!(h.size, 2);
    match m {
        Message::ContentFilled(r, d) => {
            assert_eq!(r, h.value);
            assert_eq!(d, vec![4, 5]);
        }
        _ => panic!("expected content"),
    }
}

#[test]
fn retrieving_asks_for_the_hash() {
    match ReedSolomonChunk::retrieving_request(&hash("abc", 3)) {
        Message::RetrievingReq(r) => assert_eq!(r, "abc"),
        _ => panic!("expected a request"),
    }
}

#[test]
fn accepting_content_checks_hash_and_length() {
    let h = hash("abc", 3);
    let c = ReedSolomonChunk::accept_content(Message::ContentFilled("abc".to_string(), vec![1, 2, 3]), &h).unwrap();
    assert_eq!(c.get_value(), &vec![1, 2, 3]);
    let e = ReedSolomonChunk::accept_content(Message::ContentFilled("abc".to_string(), vec![1, 2]), &h).unwrap_err();
    assert_eq!(e.0, SIZE_MISMATCH_MESSAGE);
    let e = ReedSolomonChunk::accept_content(Message::ContentFilled("abd".to_string(), vec![1, 2, 3]), &h).unwrap_err();
    assert_eq!(e.0, WRONG_HASH_MESSAGE);
    let e = ReedSolomonChunk::accept_content(Message::SendingAck("abc".to_string()), &h).unwrap_err();
    assert_eq!(e.0, WRONG_HASH_MESSAGE);
}

#[test]
fn a_chunk_encrypts_and_decrypts() {
    let e = shard_encryptor();
    let mut c = ReedSolomonChunk::new(vec![7u8; 20]);
    c.encrypt(&e).unwrap();
    assert_eq!(c.get_value().len(), 32);
    assert_ne!(&c.get_value()[..20], &[7u8; 20][..]);
    c.decrypt(&e).unwrap();
    assert_eq!(&c.get_value()[..20], &[7u8; 20][..]);
    assert_eq!(&c.get_value()[20..], &[0u8; 12][..]);
    let mut bad = ReedSolomonChunk::new(vec![1u8; 5]);
    assert!(bad.decrypt(&e).is_err());
    assert_eq!(bad.get_value(), &vec![1u8; 5]);
}

#[test]
fn file_shards_roundtrip_through_encryption() {
    let content: Vec<u8> = (0..500u32).map(|i| (i % 256) as u8).collect();
    let e = shard_encryptor();
    let mut chunks = ReedSolomonChunks::from_content(content.clone(), 64).unwrap();
    chunks.encrypt(&e).unwrap();
    chunks.update_hashes().unwrap();
    let hashes = chunks.expected_hashes();
    assert_eq!(hashes.len(), 8);
    assert_eq!(hashes.recv.len(), 8);
    let (data, recv) = chunks.into_parts();
    assert_eq!(data.len(), 8);
    for (i, d) in data.iter().enumerate() {
        assert_eq!(hashes.get_data_hash(i).value, calc_hash(d.get_value()));
        assert_eq!(hashes.get_data_hash(i).size, d.get_value().len());
    }
    for (i, r) in recv.iter().enumerate() {
        assert_eq!(hashes.get_recv_hash(i).value, calc_hash(r.get_value()));
    }
    let data_received: Vec<Option<Vec<u8>>> = data.iter().map(|c| Some(c.get_value().clone())).collect();
    let recv_received: Vec<Option<Vec<u8>>> = Vec::new();
    let mut back = ReedSolomonChunks::assemble(&hashes, data_received, recv_received).unwrap();
    back.decrypt(&e).unwrap();
    let (plain, _) = back.into_parts();
    let joined: Vec<u8> = plain.iter().flat_map(|c| c.get_value().clone()).collect();
    assert_eq!(joined.len(), 512);
    assert_eq!(&joined[..500], &content[..]);
}

#[test]
fn file_shards_recover_the_content() {
    let content: Vec<u8> = (0..200u32).map(|i| (i * 3 % 256) as u8).collect();
    let chunks = ReedSolomonChunks::from_content(content.clone(), 64).unwrap();
    let recovered = chunks.into_content().unwrap();
    assert_eq!(recovered, content);
}

#[test]
fn assembling_puts_zeros_where_data_did_not_arrive() {
    let hashes = ReedSolomonChunksHashes {
        data: vec![hash("d0", 4), hash("d1", 4)],
        recv: vec![hash("r0", 4), hash("r1", 4)],
    };
    let data = vec![None, Some(vec![1, 1, 1, 1])];
    let recv = vec![Some(vec![2, 2, 2, 2]), Some(vec![3, 3, 3, 3])];
    let chunks = ReedSolomonChunks::assemble(&hashes, data, recv).unwrap();
    let (d, r) = chunks.into_parts();
    assert_eq!(d[0].get_value(), &vec![0, 0, 0, 0]);
    assert_eq!(d[1].get_value(), &vec![1, 1, 1, 1]);
    // the recovery list: shard 0, then a zero placeholder for the received data shard 1, then shard 1
    let r: Vec<Vec<u8>> = r.iter().map(|c| c.get_value().clone()).collect();
    assert_eq!(r, vec![vec![2, 2, 2, 2], vec![0, 0, 0, 0], vec![3, 3, 3, 3]]);
}

#[test]
fn assembling_refuses_a_missing_recovery_shard() {
    let hashes = ReedSolomonChunksHashes { data: vec![hash("d0", 4)], recv: vec![hash("r0", 4)] };
    let e = ReedSolomonChunks::assemble(&hashes, vec![None], vec![None]).unwrap_err();
    assert_eq!(e.0, INCOMPLETE_MESSAGE);
}

#[test]
fn a_file_comes_back_when_every_shard_arrives() {
    let content: Vec<u8> = (0..300u32).map(|i| (i % 256) as u8).collect();
    let e = shard_encryptor();
    let mut chunks = ReedSolomonChunks::from_content(content.clone(), 64).unwrap();
    chunks.encrypt(&e).unwrap();
    chunks.update_hashes().unwrap();
    let hashes = chunks.expected_hashes();
    let (data, recv) = chunks.into_parts();
    let data: Vec<Option<Vec<u8>>> = data.iter().map(|c| Some(c.get_value().clone())).collect();
    let recv: Vec<Option<Vec<u8>>> = recv.iter().map(|c| Some(c.get_value().clone())).collect();
    let mut back = ReedSolomonChunks::assemble(&hashes, data, recv).unwrap();
    assert_eq!(back.data_count(), 5);
    assert_eq!(back.recv_count(), 10);
    back.decrypt(&e).unwrap();
    let restored = back.into_content().unwrap();
    assert_eq!(restored, content);
}

#[test]
fn receiving_asks_for_data_then_recovery_until_one_fails() {
    let mut plan = ReceivePlan::new(3);
    let mut asked = Vec::new();
    while let Some(r) = plan.next_request() {
        asked.push(r);
        let shard = match r {
            ShardRequest::Data(1) => None,
            ShardRequest::Recovery(1) => None,
            _ => Some(vec![1u8]),
        };
        plan.record(shard);
    }
    assert_eq!(
        asked,
        vec![
            ShardRequest::Data(0),
            ShardRequest::Data(1),
            ShardRequest::Data(2),
            ShardRequest::Recovery(0),
            ShardRequest::Recovery(1),
        ]
    );
    let (data, recv) = plan.into_received();
    assert_eq!(data, vec![Some(vec![1u8]), None, Some(vec![1u8])]);
    assert_eq!(recv, vec![Some(vec![1u8]), None]);
}

#[test]
fn receiving_ends_after_every_recovery_shard() {
    let mut plan = ReceivePlan::new(2);
    let mut n = 0;
    while let Some(_) = plan.next_request() {
        plan.record(Some(vec![0u8]));
        n += 1;
    }
    assert_eq!(n, 4);
    let (data, recv) = plan.into_received();
    assert_eq!((data.len(), recv.len()), (2, 2));
}
