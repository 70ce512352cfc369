use leaf::service::{
    handle_control, service_start, service_step, status_of, ControlHandlerResult, ServiceAction, ServiceControl,
    ServiceEvent, ServicePhase, ServiceState, SERVICE_NAME,
};
use leaf::broadcast::{decimal, Message as BroadcastMessage, PeerIp};
use leaf::chunkstore::{LocalChunksStorage, CHUNKS_FOLDER_NAME, LAST_CHECKPOINT_FILENAME, NO_CHUNK_MESSAGE};
use leaf::credentials::{join, GammaFilePathWrapper, PasswordFilePathWrapper};
use leaf::notify::{notify_systemd, notify_systemd_ready, notify_systemd_stopping, notify_systemd_watchdog};
use leaf::ofb::KuznechikEncryptor;

const UUID_BYTES: [u8; 16] = [
    0x67, 0xe5, 0x50, 0x44, 0x10, 0xb1, 0x42, 0x6f, 0x92, 0x47, 0xbb, 0x68, 0x0e, 0x5f, 0xe0, 0xc8,
];

#[test]
fn paths_are_joined_with_one_separator() {
    assert_eq!(join("/home/user", ".leaf"), "/home/user/.leaf");
    assert_eq!(join("/home/user/", ".leaf"), "/home/user/.leaf");
    assert_eq!(join("", ".leaf"), ".leaf");
    assert_eq!(join("/", "x"), "/x");
}

#[test]
fn credential_files_are_in_the_working_folder() {
    let p = PasswordFilePathWrapper::new(Some("/home/user".to_string())).unwrap();
    assert_eq!(p.0, "/home/user/.leaf/passwd.txt");
    let g = GammaFilePathWrapper::new(Some("/root/".to_string())).unwrap();
    assert_eq!(g.0, "/root/.leaf/gamma.bin");
    assert!(PasswordFilePathWrapper::new(None).is_err());
    assert!(GammaFilePathWrapper::new(None).is_err());
}

#[test]
fn a_generated_password_is_alphanumeric_text() {
    let p = PasswordFilePathWrapper::new(Some("/home/user".to_string())).unwrap();
    let password = p.init_password_at_first_launch(32);
    assert_eq!(password.len(), 32);
    assert!(password.iter().all(|b| b.is_ascii_alphanumeric()));
    let e = KuznechikEncryptor::new(password, vec![7; 32]);
    assert!(e.encrypt_chunk(b"shard").is_ok());
}

#[test]
fn a_generated_gamma_has_the_length() {
    let g = GammaFilePathWrapper::new(Some("/home/user".to_string())).unwrap();
    assert_eq!(g.init_gamma_at_first_launch(32).len(), 32);
    assert_eq!(g.init_gamma_at_first_launch(0).len(), 0);
}

#[test]
fn notifications_go_to_the_notify_socket() {
    let n = notify_systemd_ready(Some("/run/systemd/notify".to_string())).unwrap();
    assert_eq!(n.address, "/run/systemd/notify");
    assert_eq!(n.state, "READY=1");
    let n = notify_systemd_stopping(Some("@sd".to_string())).unwrap();
    assert_eq!(n.address, "\0sd");
    assert_eq!(n.state, "STOPPING=1");
    let n = notify_systemd_watchdog(Some("/s".to_string())).unwrap();
    assert_eq!(n.state, "WATCHDOG=1");
    assert!(notify_systemd_ready(None).is_none());
    assert!(notify_systemd_watchdog(Some(String::new())).is_none());
    assert_eq!(notify_systemd("STATUS=ok", Some("/s".to_string())).unwrap().state, "STATUS=ok");
}

#[test]
fn a_shard_file_is_named_by_the_shard_as_a_uuid() {
    let mut s = LocalChunksStorage::new("/home/user");
    assert_eq!(s.get_dir(), "/home/user/.leaf/chunks");
    assert_eq!(CHUNKS_FOLDER_NAME, "chunks");
    assert_eq!(LAST_CHECKPOINT_FILENAME, "last_checkpoint.json");
    let path = s.save(&UUID_BYTES, b"hash");
    assert_eq!(path, "/home/user/.leaf/chunks/67e55044-10b1-426f-9247-bb680e5fe0c8");
    assert_eq!(s.retrieve(b"hash").unwrap(), path);
}

#[test]
fn retrieving_an_unknown_hash_is_refused() {
    let s = LocalChunksStorage::new("/home/user");
    assert_eq!(s.retrieve(b"nothing").unwrap_err(), NO_CHUNK_MESSAGE);
}

#[test]
fn saving_again_under_a_hash_replaces_the_file() {
    let mut s = LocalChunksStorage::new("/h");
    s.save(&UUID_BYTES, b"hash");
    let second = s.save(&[0u8; 16], b"hash");
    assert_eq!(second, "/h/.leaf/chunks/00000000-0000-0000-0000-000000000000");
    assert_eq!(s.retrieve(b"hash").unwrap(), second);
    assert_eq!(s.entries().len(), 1);
}

#[test]
fn the_checkpoint_restores_the_index() {
    let mut s = LocalChunksStorage::new("/h");
    s.save(&UUID_BYTES, b"a");
    s.save(&[0xff; 16], b"b");
    let restored = LocalChunksStorage::from_checkpoint(s.get_dir().clone(), s.entries());
    assert_eq!(restored.retrieve(b"a").unwrap(), s.retrieve(b"a").unwrap());
    assert_eq!(restored.retrieve(b"b").unwrap(), "/h/.leaf/chunks/ffffffff-ffff-ffff-ffff-ffffffffffff");
}

#[test]
fn decimal_text_of_a_byte() {
    assert_eq!(decimal(0), "0");
    assert_eq!(decimal(7), "7");
    assert_eq!(decimal(10), "10");
    assert_eq!(decimal(99), "99");
    assert_eq!(decimal(100), "100");
    assert_eq!(decimal(255), "255");
    for n in 0..=255u8 {
        assert_eq!(decimal(n), n.to_string());
    }
}

#[test]
fn broadcast_messages_by_type_number() {
    let ip = PeerIp::V4(0xc0a8_7c01);
    match BroadcastMessage::build_message(ip, b"h", 0).unwrap() {
        BroadcastMessage::SendingReq(a, d) => {
            assert_eq!(a, ip);
            assert_eq!(d, b"h".to_vec());
        }
        _ => panic!("expected a sending request"),
    }
    assert!(matches!(BroadcastMessage::build_message(ip, b"h", 1).unwrap(), BroadcastMessage::RetrievingReq(_, _)));
    assert!(matches!(BroadcastMessage::build_message(ip, b"h", 2).unwrap(), BroadcastMessage::SendingAck(_)));
    assert!(matches!(BroadcastMessage::build_message(ip, b"h", 3).unwrap(), BroadcastMessage::RetrievingAck(_)));
    match BroadcastMessage::build_message(PeerIp::V6(1), b"h", 42) {
        Err(e) => assert_eq!(e.0, "42"),
        Ok(_) => panic!("expected an error"),
    }
}

#[test]
fn service_answers_the_control_manager() {
    assert_eq!(handle_control(ServiceControl::Stop), (ControlHandlerResult::NoError, true));
    assert_eq!(handle_control(ServiceControl::Interrogate), (ControlHandlerResult::NoError, false));
    assert_eq!(handle_control(ServiceControl::Other), (ControlHandlerResult::NotImplemented, false));
    let running = status_of(ServiceState::Running);
    assert!(running.accepts_stop);
    assert_eq!(running.wait_hint_secs, 0);
    let pending = status_of(ServiceState::StopPending);
    assert!(!pending.accepts_stop);
    assert_eq!(pending.wait_hint_secs, 10);
    let stopped = status_of(ServiceState::Stopped);
    assert_eq!(stopped.current_state, ServiceState::Stopped);
    assert_eq!((stopped.exit_code, stopped.checkpoint), (0, 0));
    assert_eq!(SERVICE_NAME, "LeafServer");
}

#[test]
fn broadcast_answers_for_a_hash() {
    assert!(BroadcastMessage::SendingAck(b"h".to_vec()).is_sending_ack_for(b"h"));
    assert!(!BroadcastMessage::SendingAck(b"h".to_vec()).is_sending_ack_for(b"g"));
    assert!(!BroadcastMessage::RetrievingAck(b"h".to_vec()).is_sending_ack_for(b"h"));
    assert!(BroadcastMessage::RetrievingAck(b"h".to_vec()).is_retrieving_ack_for(b"h"));
    assert!(!BroadcastMessage::SendingReq(PeerIp::V4(1), b"h".to_vec()).is_retrieving_ack_for(b"h"));
}

fn run_service(events: &[ServiceEvent]) -> Vec<ServiceAction> {
    let (mut phase, first) = service_start();
    let mut actions = vec![first];
    for e in events {
        let (next, a) = service_step(phase, *e);
        phase = next;
        actions.push(a);
    }
    actions
}

#[test]
fn service_reports_running_then_stop_pending_then_stopped() {
    let actions = run_service(&[
        ServiceEvent::Registered(true),
        ServiceEvent::Reported(true),
        ServiceEvent::RuntimeStarted(true),
        ServiceEvent::StopRequested,
        ServiceEvent::Reported(false),
        ServiceEvent::RuntimeDropped,
        ServiceEvent::Reported(true),
    ]);
    assert_eq!(
        actions,
        vec![
            ServiceAction::Register,
            ServiceAction::Report(ServiceState::Running),
            ServiceAction::StartRuntime,
            ServiceAction::WaitForStop,
            ServiceAction::Report(ServiceState::StopPending),
            ServiceAction::ShutDownRuntime,
            ServiceAction::Report(ServiceState::Stopped),
            ServiceAction::Exit,
        ]
    );
    assert_eq!(status_of(ServiceState::StopPending).wait_hint_secs, 10);
}

#[test]
fn service_reports_nothing_when_registration_fails() {
    let actions = run_service(&[ServiceEvent::Registered(false), ServiceEvent::StopRequested, ServiceEvent::Reported(true)]);
    assert_eq!(actions, vec![ServiceAction::Register, ServiceAction::Exit, ServiceAction::Continue, ServiceAction::Continue]);
}

#[test]
fn service_waits_for_a_stop_request() {
    let actions = run_service(&[
        ServiceEvent::Registered(true),
        ServiceEvent::Reported(true),
        ServiceEvent::RuntimeStarted(true),
        ServiceEvent::RuntimeDropped,
    ]);
    assert_eq!(actions[4], ServiceAction::Continue);
    let (phase, a) = service_step(ServicePhase::StartingRuntime, ServiceEvent::RuntimeStarted(false));
    assert_eq!((phase, a), (ServicePhase::Finished, ServiceAction::Exit));
}
