use leaf::message::{from_frame, into_frame, Message};
use leaf::server::{process_message, ServerAction, ServerError};
use leaf::storage::{storage_paths, UdpServerStorage, UdpServerStorageState, MAX_OCCUPIED_SPACE, NO_SUCH_HASH_MESSAGE, SHARD_FILE_EXTENSION};

fn storage_with(entries: Vec<(&str, &str)>, size: usize) -> UdpServerStorage {
    let entries = entries.into_iter().map(|(h, f)| (h.to_string(), f.to_string())).collect();
    UdpServerStorage::new("/var/lib/leaf".to_string(), UdpServerStorageState::from_entries(entries, size))
}

#[test]
fn storage_state_keeps_each_hash_once() {
    let s = UdpServerStorageState::from_entries(
        vec![
            ("h1".to_string(), "a.bin".to_string()),
            ("h2".to_string(), "b.bin".to_string()),
            ("h1".to_string(), "c.bin".to_string()),
        ],
        42,
    );
    let mut e = s.entries();
    e.sort();
    assert_eq!(e, vec![("h1".to_string(), "c.bin".to_string()), ("h2".to_string(), "b.bin".to_string())]);
    assert_eq!(s.get_size(), 42);
    assert!(UdpServerStorageState::empty().entries().is_empty());
    assert_eq!(UdpServerStorageState::empty().get_size(), 0);
}

#[test]
fn storage_reports_its_state() {
    let s = storage_with(vec![("h1", "a.bin")], 10);
    assert_eq!(s.get_path(), "/var/lib/leaf");
    assert_eq!(s.get_occupied_space(), 10);
    assert!(s.is_hash_presented("h1"));
    assert!(!s.is_hash_presented("h2"));
    assert!(s.can_save());
}

#[test]
fn storage_is_full_at_the_limit() {
    assert_eq!(MAX_OCCUPIED_SPACE, 10 * 1024 * 1024 * 1024);
    if usize::BITS >= 64 {
        let s = storage_with(vec![], MAX_OCCUPIED_SPACE as usize);
        assert!(!s.can_save());
        let s = storage_with(vec![], MAX_OCCUPIED_SPACE as usize - 1);
        assert!(s.can_save());
    }
}

#[test]
fn take_after_save_gives_the_file_and_forgets_the_hash() {
    let mut s = storage_with(vec![], 0);
    let file = s.prepare_save("h1").unwrap();
    assert!(file.starts_with("/var/lib/leaf/"));
    assert!(file.ends_with(SHARD_FILE_EXTENSION));
    assert_eq!(file.len(), "/var/lib/leaf/".len() + 36 + 4);
    assert_ne!(s.prepare_save("h1").unwrap(), file);
    assert_eq!(s.shard_file_path("id-1"), "/var/lib/leaf/id-1.bin");
    s.commit_save("h1", file.clone(), 7);
    assert!(s.is_hash_presented("h1"));
    assert_eq!(s.get_occupied_space(), 7);
    assert_eq!(s.take("h1").unwrap(), file);
    s.release(7);
    assert_eq!(s.get_occupied_space(), 0);
    assert!(!s.is_hash_presented("h1"));
    assert_eq!(s.take("h1").unwrap_err().0, NO_SUCH_HASH_MESSAGE);
}

#[test]
fn a_kept_hash_is_not_saved_twice() {
    let s = storage_with(vec![("h1", "a.bin")], 0);
    let e = s.prepare_save("h1").unwrap_err();
    assert_eq!(e.0, "Hash h1 already presents file");
}

#[test]
fn state_survives_the_storage() {
    let mut s = storage_with(vec![("h1", "a.bin")], 5);
    s.commit_save("h2", "b.bin".to_string(), 3);
    let state = s.into_state();
    let mut e = state.entries();
    e.sort();
    assert_eq!(e, vec![("h1".to_string(), "a.bin".to_string()), ("h2".to_string(), "b.bin".to_string())]);
    assert_eq!(state.get_size(), 8);
}

#[test]
fn occupied_space_does_not_wrap() {
    let mut s = storage_with(vec![], usize::MAX - 1);
    s.commit_save("h1", "a.bin".to_string(), 5);
    assert_eq!(s.get_occupied_space(), usize::MAX);
    let mut t = storage_with(vec![], 2);
    t.release(5);
    assert_eq!(t.get_occupied_space(), 0);
}

#[test]
fn saving_fills_the_storage_up() {
    let mut s = storage_with(vec![], 10 * 1024 * 1024 * 1024 - 4);
    assert!(s.can_save());
    s.commit_save("h1", "a.bin".to_string(), 4);
    assert!(!s.can_save());
}

#[test]
fn server_offers_to_keep_a_shard_when_there_is_room() {
    let mut s = storage_with(vec![], 0);
    match process_message(&mut s, Message::SendingReq("h1".to_string())) {
        ServerAction::Reply(Message::SendingAck(h)) => assert_eq!(h, "h1"),
        _ => panic!("expected an offer"),
    }
}

#[test]
fn server_refuses_to_keep_a_shard_when_full() {
    if usize::BITS >= 64 {
        let mut s = storage_with(vec![], MAX_OCCUPIED_SPACE as usize);
        let a = process_message(&mut s, Message::SendingReq("h1".to_string()));
        assert!(matches!(a, ServerAction::Fail(ServerError::NoFreeSpace(_))));
    }
}

#[test]
fn server_stores_a_new_shard() {
    let mut s = storage_with(vec![], 0);
    match process_message(&mut s, Message::ContentFilled("h1".to_string(), vec![1, 2, 3])) {
        ServerAction::Store { hash, file, data } => {
            assert_eq!(hash, "h1");
            assert!(file.starts_with("/var/lib/leaf/") && file.ends_with(".bin"));
            assert_eq!(data, vec![1, 2, 3]);
        }
        _ => panic!("expected a store"),
    }
    assert!(!s.is_hash_presented("h1"));
}

#[test]
fn server_refuses_a_shard_it_keeps() {
    let mut s = storage_with(vec![("h1", "a.bin")], 0);
    match process_message(&mut s, Message::ContentFilled("h1".to_string(), vec![1])) {
        ServerAction::Fail(ServerError::Saving(e)) => assert_eq!(e.0, "Hash h1 already presents file"),
        _ => panic!("expected a refusal"),
    }
}

#[test]
fn server_returns_a_kept_shard_once() {
    let mut s = storage_with(vec![("h1", "a.bin")], 0);
    match process_message(&mut s, Message::RetrievingReq("h1".to_string())) {
        ServerAction::Return { hash, file } => {
            assert_eq!(hash, "h1");
            assert_eq!(file, "a.bin");
        }
        _ => panic!("expected a return"),
    }
    match process_message(&mut s, Message::RetrievingReq("h1".to_string())) {
        ServerAction::Fail(ServerError::NoHash(e)) => assert_eq!(e.0, "h1"),
        _ => panic!("expected no hash"),
    }
}

#[test]
fn server_refuses_an_answer() {
    let mut s = storage_with(vec![], 0);
    let a = process_message(&mut s, Message::SendingAck("h1".to_string()));
    assert!(matches!(a, ServerAction::Fail(ServerError::InvalidMessage(_))));
}

#[test]
fn frames_are_base64_of_the_document() {
    let json = br#"{"SendingReq":"h1"}"#;
    let frame = into_frame(json);
    assert_eq!(frame, b"eyJTZW5kaW5nUmVxIjoiaDEifQ==".to_vec());
    assert_eq!(from_frame(&frame).unwrap(), json.to_vec());
    assert!(from_frame(b"{not base64}").is_err());
}

#[test]
fn server_keeps_its_files_under_the_applications_directory() {
    let (chunks, state) = storage_paths();
    assert_eq!(chunks, "/var/local/leaf/chunks");
    assert_eq!(state, "/var/local/leaf/last_state.bin");
}

#[test]
fn a_hash_is_kept_when_saved_after_its_last_take() {
    let mut s = storage_with(vec![], 0);
    let f1 = s.prepare_save("h").unwrap();
    s.commit_save("h", f1.clone(), 1);
    assert!(s.prepare_save("h").is_err());
    assert_eq!(s.take("h").unwrap(), f1);
    assert!(!s.is_hash_presented("h"));
    let f2 = s.prepare_save("h").unwrap();
    s.commit_save("h", f2.clone(), 1);
    assert!(s.is_hash_presented("h"));
    assert_eq!(s.take("h").unwrap(), f2);
    assert!(s.take("h").is_err());
}
