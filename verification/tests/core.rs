use taildrop::cli::{
    accepted_line, pending_line, rejected_line, resolve_pending_id, send_outcome, sent_line, status_header,
    status_row,
};
use taildrop::error::TaildropError;
use taildrop::format::human_size;
use taildrop::models::{
    ConflictPolicy, DeviceStat, PendingIncoming, Peer, TailnetStatus, TransferDirection, TransferRecord,
    TransferStatus,
};
use taildrop::store::{HistoryState, PendingState, Store};
use taildrop::supervisor::{arrival_notice, received_notice, ReceiverState, Supervisor};
use taildrop::transfer::{attribution_sidecar, send_payload_after_sidecar};

fn peer(host: &str, is_self: bool) -> Peer {
    Peer {
        id: host.into(),
        hostname: host.into(),
        alias: host.into(),
        dns_name: format!("{host}.ts.net"),
        os: "linux".into(),
        tailscale_ips: vec!["100.64.0.1".into()],
        online: true,
        last_seen: None,
        is_self,
        rx_bytes: 0,
        tx_bytes: 0,
    }
}

fn record(host: &str, dir: TransferDirection, status: TransferStatus, size: u64) -> TransferRecord {
    TransferRecord {
        id: "r".into(),
        direction: dir,
        peer_hostname: host.into(),
        peer_dns_name: None,
        file_name: "f".into(),
        size,
        timestamp: "t".into(),
        status,
        saved_path: None,
        error: None,
        batch_id: None,
    }
}

fn pending(id: &str, name: &str, sender: Option<&str>, size: u64) -> PendingIncoming {
    PendingIncoming {
        id: id.into(),
        file_name: name.into(),
        staged_path: format!("/s/{name}"),
        size,
        sender_hostname: sender.map(|s| s.to_string()),
        sender_dns_name: None,
        received_at: "t".into(),
    }
}

fn store_with(items: Vec<PendingIncoming>) -> Store {
    Store::open(
        "/r".into(),
        None,
        HistoryState { records: vec![] },
        PendingState { items, unmatched_sidecars: vec![] },
    )
}

#[test]
fn device_stats_count_completed_transfers_per_device() {
    let status = TailnetStatus { self_peer: peer("me", true), peers: vec![peer("alice", false), peer("bob", false)] };
    let history = vec![
        record("alice", TransferDirection::Sent, TransferStatus::Completed, 10),
        record("alice", TransferDirection::Sent, TransferStatus::Failed, 99),
        record("alice", TransferDirection::Received, TransferStatus::Completed, 5),
        record("alice", TransferDirection::Sent, TransferStatus::Completed, 7),
        record("bob", TransferDirection::Received, TransferStatus::Rejected, 3),
        record("carol", TransferDirection::Sent, TransferStatus::Completed, 1),
    ];
    let stats = taildrop::device_stats(&status, &history);
    assert_eq!(stats.devices.len(), 3);
    assert_eq!(stats.devices[0].peer.hostname, "me");
    assert_eq!(stats.devices[0].sent_count, 0);
    let a = &stats.devices[1];
    assert_eq!((a.sent_count, a.sent_bytes, a.received_count, a.received_bytes), (2, 17, 1, 5));
    let b = &stats.devices[2];
    assert_eq!((b.sent_count, b.sent_bytes, b.received_count, b.received_bytes), (0, 0, 0, 0));
    assert_eq!(b.peer.tailscale_ips, vec!["100.64.0.1".to_string()]);
}

#[test]
fn human_sizes() {
    assert_eq!(human_size(0), "0 B");
    assert_eq!(human_size(1023), "1023 B");
    assert_eq!(human_size(1024), "1.0 KB");
    assert_eq!(human_size(1536), "1.5 KB");
    assert_eq!(human_size(10 * 1024 * 1024 + 1), "10.0 MB");
    assert_eq!(human_size(3 * 1024 * 1024 * 1024), "3.0 GB");
    assert_eq!(human_size(u64::MAX), "16777215.9 TB");
}

#[test]
fn pending_ids_resolve_by_unambiguous_prefix() {
    let store = store_with(vec![pending("abc12345-x", "a", None, 1), pending("abd99999-y", "b", None, 1)]);
    assert_eq!(resolve_pending_id(&store, "abc").unwrap(), "abc12345-x");
    match resolve_pending_id(&store, "ab") {
        Err(TaildropError::Command(m)) => {
            assert_eq!(m, "\"ab\" matches more than one pending file, use a longer id")
        }
        other => panic!("unexpected {other:?}"),
    }
    match resolve_pending_id(&store, "zz") {
        Err(TaildropError::NotFound(m)) => {
            assert_eq!(m, "no pending file matches id \"zz\" (run `taildrop confirm-drop list`)")
        }
        other => panic!("unexpected {other:?}"),
    }
}

#[test]
fn command_line_output() {
    let p = pending("0123456789abcdef", "photo.jpg", Some("alice"), 2048);
    assert_eq!(pending_line(&p), "01234567  photo.jpg <- alice  2.0 KB");
    let q = pending("fedcba9876543210", "x", None, 3);
    assert_eq!(pending_line(&q), "fedcba98  x <- unknown sender  3 B");
    let mut r = record("alice", TransferDirection::Received, TransferStatus::Completed, 1);
    r.file_name = "doc.txt".into();
    assert_eq!(sent_line(&r, "alice"), "sent doc.txt to alice (1 B)");
    assert_eq!(accepted_line(&r), "accepted doc.txt -> ");
    r.saved_path = Some("/d/doc.txt".into());
    assert_eq!(accepted_line(&r), "accepted doc.txt -> /d/doc.txt");
    assert_eq!(rejected_line(&r), "rejected doc.txt");
    assert!(send_outcome(false).is_ok());
    assert_eq!(send_outcome(true).unwrap_err().message(), "one or more sends failed");
}

#[test]
fn device_table_matches_the_format_strings() {
    let header = status_header();
    assert_eq!(
        header,
        format!("{:<20} {:<9} {:<8} {:<10} {:>12} {:>12}", "DEVICE", "OS", "STATUS", "IP", "SENT", "RECEIVED")
    );
    let d = DeviceStat { peer: peer("me", true), sent_count: 3, sent_bytes: 2048, received_count: 0, received_bytes: 0 };
    assert_eq!(
        status_row(&d),
        format!(
            "{:<20} {:<9} {:<8} {:<10} {:>5} ({:>5}) {:>5} ({:>5})",
            "me (this device)", "linux", "online", "100.64.0.1", 3, "2.0 KB", 0, "0 B"
        )
    );
}

#[test]
fn supervisor_gives_up_after_three_quick_deaths() {
    let mut s = Supervisor::new();
    assert!(!s.reconcile(ConflictPolicy::Rename));
    assert!(!s.after_ensure(ReceiverState::Started, ConflictPolicy::Rename, 0));
    assert!(s.poll_staging());
    assert!(!s.after_ensure(ReceiverState::AlreadyRunning, ConflictPolicy::Rename, 1_000));
    assert!(!s.after_ensure(ReceiverState::Started, ConflictPolicy::Rename, 1_500));
    assert_eq!(s.quick_deaths, 1);
    assert!(!s.after_ensure(ReceiverState::Started, ConflictPolicy::Rename, 2_000));
    assert_eq!(s.quick_deaths, 2);
    assert!(s.after_ensure(ReceiverState::Started, ConflictPolicy::Rename, 2_500));
    assert!(!s.use_receiver);
    assert!(!s.poll_staging());
    s.reconcile(ConflictPolicy::Skip);
    assert!(!s.use_receiver);
    assert!(!s.alive);
}

#[test]
fn supervisor_gives_up_after_three_failed_starts() {
    let mut s = Supervisor::new();
    assert!(!s.after_ensure(ReceiverState::Failed, ConflictPolicy::Rename, 0));
    assert!(!s.after_ensure(ReceiverState::Failed, ConflictPolicy::Rename, 60_000));
    assert!(s.after_ensure(ReceiverState::Failed, ConflictPolicy::Rename, 120_000));
    assert!(!s.use_receiver);
    assert_eq!(s.quick_deaths, 3);
}

#[test]
fn supervisor_gives_up_after_mixed_quick_deaths() {
    let mut s = Supervisor::new();
    assert!(!s.after_ensure(ReceiverState::Started, ConflictPolicy::Rename, 10_000));
    assert_eq!(s.quick_deaths, 0);
    assert!(!s.after_ensure(ReceiverState::Failed, ConflictPolicy::Rename, 11_000));
    assert_eq!(s.quick_deaths, 1);
    assert!(!s.after_ensure(ReceiverState::Started, ConflictPolicy::Rename, 12_000));
    assert_eq!(s.quick_deaths, 2);
    assert!(s.after_ensure(ReceiverState::Failed, ConflictPolicy::Rename, 13_000));
    assert_eq!(s.quick_deaths, 3);
    assert!(!s.use_receiver);
    assert!(!s.alive);
    assert!(!s.poll_staging());
}

#[test]
fn sending_records_a_launch_failure_with_its_message() {
    let mut store = store_with(vec![]);
    let spawn = TaildropError::Spawn(std::io::Error::new(std::io::ErrorKind::NotFound, "no such file"));
    let err = store.record_sent("peer", "c.txt", 5, Err(spawn), None);
    assert!(matches!(err, Err(TaildropError::Spawn(_))));
    let history = store.list_history();
    assert_eq!(history[0].status, TransferStatus::Failed);
    assert_eq!(history[0].error.as_deref(), Some("failed to launch tailscale CLI: no such file"));
}

#[test]
fn supervisor_forgives_a_child_that_lived_long_enough() {
    let mut s = Supervisor::new();
    s.after_ensure(ReceiverState::Failed, ConflictPolicy::Rename, 0);
    s.after_ensure(ReceiverState::Failed, ConflictPolicy::Rename, 0);
    assert_eq!(s.quick_deaths, 2);
    assert!(!s.poll_staging());
    assert!(!s.after_ensure(ReceiverState::Started, ConflictPolicy::Skip, 10_000));
    assert_eq!(s.quick_deaths, 0);
    assert_eq!(s.running_conflict, Some(ConflictPolicy::Skip));
    assert!(s.reconcile(ConflictPolicy::Rename));
    assert_eq!(s.running_conflict, None);
    assert!(!s.reconcile(ConflictPolicy::Rename));
}

#[test]
fn notices_name_sender_and_size() {
    assert_eq!(arrival_notice(&pending("i", "a.txt", Some("alice"), 1)), "alice sent you a.txt");
    assert_eq!(arrival_notice(&pending("i", "a.txt", None, 1)), "New file received: a.txt");
    let mut r = record("x", TransferDirection::Received, TransferStatus::Completed, 1536);
    r.file_name = "b.bin".into();
    assert_eq!(received_notice(&r), "Received b.bin (1.5 KB)");
}

#[test]
fn sending_records_every_attempt() {
    let mut store = store_with(vec![]);
    let sc = attribution_sidecar("a.txt", 12, "me", "me.ts.net");
    assert_eq!((sc.file_name.as_str(), sc.size, sc.sender_hostname.as_str()), ("a.txt", 12, "me"));
    assert!(send_payload_after_sidecar(&Ok(())));
    assert!(send_payload_after_sidecar(&Err(TaildropError::Command("refused".into()))));
    assert!(!send_payload_after_sidecar(&Err(TaildropError::Timeout("slow".into()))));

    let ok = store.record_sent("peer", "a.txt", 12, Ok(()), Some("batch-1")).unwrap();
    assert_eq!(ok.status, TransferStatus::Completed);
    assert_eq!(ok.batch_id.as_deref(), Some("batch-1"));
    let err = store.record_sent("peer", "b.txt", 3, Err(TaildropError::Timeout("gone".into())), None);
    assert!(matches!(err, Err(TaildropError::Timeout(_))));
    let history = store.list_history();
    assert_eq!(history.len(), 2);
    assert_eq!(history[0].status, TransferStatus::Failed);
    assert_eq!(history[0].error.as_deref(), Some("timeout: gone"));
    assert_eq!(history[0].direction, TransferDirection::Sent);
    assert_eq!(history[1].file_name, "a.txt");
}

#[test]
fn error_messages() {
    assert_eq!(TaildropError::Command("x".into()).message(), "x");
    assert_eq!(TaildropError::Io("disk".into()).message(), "io error: disk");
    let spawn = TaildropError::Spawn(std::io::Error::new(std::io::ErrorKind::NotFound, "no such file"));
    assert_eq!(spawn.message(), "failed to launch tailscale CLI: no such file");
    let json_err = serde_json::from_str::<u32>("nope").unwrap_err();
    let parse: TaildropError = json_err.into();
    assert!(parse.message().starts_with("failed to parse tailscale output: "));
}

#[test]
fn store_without_root_uses_the_app_data_directory() {
    match Store::new(None) {
        Ok(s) => assert!(s.root().ends_with("tailwheel")),
        Err(e) => assert_eq!(e.message(), "io error: no app data directory for this platform"),
    }
}
