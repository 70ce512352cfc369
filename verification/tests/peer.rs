use leaf::datagram::{
    Message, MessageType, CONTENT_FILLED_MSG_TYPE, RETRIEVING_ACK_MSG_TYPE, RETRIEVING_REQ_MSG_TYPE,
    SENDING_ACK_MSG_TYPE, SENDING_REQ_MSG_TYPE,
};
use leaf::kvstore::{storage_file_path, BroadcastServerStorage};
use leaf::peer::{handle_message, PeerAction};

#[test]
fn message_type_numbers() {
    assert_eq!(SENDING_REQ_MSG_TYPE, 0);
    assert_eq!(RETRIEVING_REQ_MSG_TYPE, 1);
    assert_eq!(SENDING_ACK_MSG_TYPE, 2);
    assert_eq!(RETRIEVING_ACK_MSG_TYPE, 3);
    assert_eq!(CONTENT_FILLED_MSG_TYPE, 4);
    assert_eq!(MessageType::from(0), MessageType::SendingReq);
    assert_eq!(MessageType::from(1), MessageType::RetrievingReq);
    assert_eq!(MessageType::from(2), MessageType::SendingAck);
    assert_eq!(MessageType::from(3), MessageType::RetrievingAck);
    assert_eq!(MessageType::from(4), MessageType::ContentFilled);
    for v in 0u8..=4 {
        assert_eq!(MessageType::from(v).into(), v);
    }
}

#[test]
fn datagram_keeps_its_fields() {
    let m = Message::new(CONTENT_FILLED_MSG_TYPE, b"hash", Some(vec![1, 2]));
    assert_eq!(m.get_type(), 4);
    assert_eq!(m.get_hash(), b"hash".to_vec());
    assert_eq!(m.get_data(), Some(vec![1, 2]));
}

#[test]
fn store_gives_back_the_last_shard_added() {
    let mut s = BroadcastServerStorage::empty();
    s.add(b"h", b"first");
    s.add(b"g", b"other");
    s.add(b"h", b"second");
    assert_eq!(s.get(b"h").unwrap(), b"second".to_vec());
    assert_eq!(s.get(b"g").unwrap(), b"other".to_vec());
    assert_eq!(s.pop(b"h").unwrap(), b"second".to_vec());
    assert!(s.get(b"h").is_err());
    assert_eq!(s.get(b"g").unwrap(), b"other".to_vec());
}

#[test]
fn store_refuses_an_unknown_hash_with_its_debug_rendering() {
    let mut s = BroadcastServerStorage::empty();
    assert_eq!(s.get(&[1, 2]).unwrap_err().0, "[1, 2]");
    assert_eq!(s.pop(&[]).unwrap_err().0, "[]");
    assert_eq!(s.get(&[0, 9, 10, 99, 100, 255]).unwrap_err().0, format!("{:?}", [0u8, 9, 10, 99, 100, 255]));
}

#[test]
fn peer_offers_to_keep_a_shard() {
    let mut s = BroadcastServerStorage::empty();
    let req = Message::new(SENDING_REQ_MSG_TYPE, b"h", Some(vec![9]));
    match handle_message(&mut s, &req) {
        PeerAction::Reply(m) => {
            assert_eq!(m.get_type(), SENDING_ACK_MSG_TYPE);
            assert_eq!(m.get_hash(), b"h".to_vec());
            assert_eq!(m.get_data(), Some(vec![9]));
        }
        _ => panic!("expected an offer"),
    }
    assert!(s.get(b"h").is_err());
}

#[test]
fn peer_keeps_and_returns_a_shard() {
    let mut s = BroadcastServerStorage::empty();
    let put = Message::new(CONTENT_FILLED_MSG_TYPE, b"h", Some(vec![5, 6, 7]));
    assert!(matches!(handle_message(&mut s, &put), PeerAction::Stored));
    let req = Message::new(RETRIEVING_REQ_MSG_TYPE, b"h", None);
    match handle_message(&mut s, &req) {
        PeerAction::Reply(m) => {
            assert_eq!(m.get_type(), RETRIEVING_ACK_MSG_TYPE);
            assert_eq!(m.get_data(), Some(vec![5, 6, 7]));
        }
        _ => panic!("expected the shard"),
    }
    // the shard stays kept
    assert_eq!(s.get(b"h").unwrap(), vec![5, 6, 7]);
}

#[test]
fn peer_fails_on_an_unknown_hash() {
    let mut s = BroadcastServerStorage::empty();
    let req = Message::new(RETRIEVING_REQ_MSG_TYPE, &[7], None);
    match handle_message(&mut s, &req) {
        PeerAction::Fail(e) => {
            assert_eq!(e.0, MessageType::RetrievingReq);
            assert_eq!(e.1, "[7]");
        }
        _ => panic!("expected a failure"),
    }
}

#[test]
fn peer_fails_on_an_answer() {
    let mut s = BroadcastServerStorage::empty();
    let ack = Message::new(SENDING_ACK_MSG_TYPE, b"h", None);
    match handle_message(&mut s, &ack) {
        PeerAction::Fail(e) => assert_eq!(e.0, MessageType::SendingAck),
        _ => panic!("expected a failure"),
    }
    let ack = Message::new(RETRIEVING_ACK_MSG_TYPE, b"h", Some(vec![]));
    match handle_message(&mut s, &ack) {
        PeerAction::Fail(e) => assert_eq!(e.0, MessageType::RetrievingAck),
        _ => panic!("expected a failure"),
    }
}

#[test]
fn client_recognises_the_offer_for_its_shard() {
    let ack = Message::new(SENDING_ACK_MSG_TYPE, b"h", None);
    assert!(ack.is_sending_ack_for(b"h"));
    assert!(!ack.is_sending_ack_for(b"g"));
    let req = Message::new(SENDING_REQ_MSG_TYPE, b"h", None);
    assert!(!req.is_sending_ack_for(b"h"));
    assert!(!ack.has_data());
}

#[test]
fn client_takes_the_content_for_its_shard() {
    let filled = Message::new(CONTENT_FILLED_MSG_TYPE, b"h", Some(vec![1, 2]));
    assert!(filled.has_data());
    assert_eq!(filled.content_for(b"h"), Some(vec![1, 2]));
    assert_eq!(filled.content_for(b"g"), None);
    let ack = Message::new(RETRIEVING_ACK_MSG_TYPE, b"h", Some(vec![1, 2]));
    assert_eq!(ack.content_for(b"h"), None);
}

#[test]
fn store_read_back_keeps_the_last_content_of_each_hash() {
    let s = BroadcastServerStorage::from_entries(vec![
        (b"a".to_vec(), b"1".to_vec()),
        (b"b".to_vec(), b"2".to_vec()),
        (b"a".to_vec(), b"3".to_vec()),
    ]);
    assert_eq!(s.get(b"a").unwrap(), b"3".to_vec());
    assert_eq!(s.get(b"b").unwrap(), b"2".to_vec());
    assert_eq!(storage_file_path("/home/u"), "/home/u/.leaf/server/stor");
}
