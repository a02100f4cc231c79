use taildrop::error::TaildropError;
use taildrop::models::{
    ConflictPolicy, HistoryRetention, PendingIncoming, Settings, TransferDirection, TransferRecord,
    TransferStatus,
};
use taildrop::naming::resolve_destination;
use taildrop::store::{
    DrainedFile, HistoryState, PendingState, SidecarMeta, StagedEntry, Store,
};

fn test_store() -> Store {
    Store::new(Some("/tmp/taildrop-test-root".to_string())).unwrap()
}

fn fake_record(id: &str, timestamp: String) -> TransferRecord {
    TransferRecord {
        id: id.to_string(),
        direction: TransferDirection::Sent,
        peer_hostname: "somewhere".into(),
        peer_dns_name: None,
        file_name: "f.txt".into(),
        size: 1,
        timestamp,
        status: TransferStatus::Completed,
        saved_path: None,
        error: None,
        batch_id: None,
    }
}

fn instant(t: chrono::DateTime<chrono::Utc>) -> (i64, u32) {
    (t.timestamp(), t.timestamp_subsec_nanos())
}

fn sidecar_file(path: &str, meta: Option<SidecarMeta>) -> DrainedFile {
    let file_name = path.rsplit('/').next().unwrap().to_string();
    DrainedFile { path: path.to_string(), file_name, size: 100, sidecar: meta }
}

fn payload(path: &str, size: u64) -> DrainedFile {
    let file_name = path.rsplit('/').next().unwrap().to_string();
    DrainedFile { path: path.to_string(), file_name, size, sidecar: None }
}

fn meta(file_name: &str, host: &str) -> SidecarMeta {
    SidecarMeta {
        file_name: file_name.into(),
        size: 42,
        sender_hostname: host.into(),
        sender_dns_name: format!("{host}.tailnet.ts.net"),
        sent_at: chrono::Utc::now().to_rfc3339(),
    }
}

#[test]
fn prune_history_removes_only_entries_older_than_retention() {
    let mut store = test_store();
    let now = chrono::Utc::now();

    store.append_history(fake_record("old", (now - chrono::Duration::days(10)).to_rfc3339()));
    store.append_history(fake_record("recent", (now - chrono::Duration::hours(1)).to_rfc3339()));

    store.prune_history(HistoryRetention::Weekly, instant(now));

    let remaining = store.list_history();
    assert_eq!(remaining.len(), 1);
    assert_eq!(remaining[0].id, "recent");
}

#[test]
fn prune_history_never_keeps_everything() {
    let mut store = test_store();
    let now = chrono::Utc::now();

    store.append_history(fake_record("ancient", (now - chrono::Duration::days(9999)).to_rfc3339()));

    store.prune_history(HistoryRetention::Never, instant(now));

    assert_eq!(store.list_history().len(), 1);
}

#[test]
fn clear_history_empties_the_log() {
    let mut store = test_store();
    let now = chrono::Utc::now();

    store.append_history(fake_record("one", now.to_rfc3339()));
    store.append_history(fake_record("two", now.to_rfc3339()));
    assert_eq!(store.list_history().len(), 2);

    store.clear_history();

    assert!(store.list_history().is_empty());
}

#[test]
fn prune_keeps_unreadable_timestamps_and_reports_changes() {
    let mut store = test_store();
    let now = chrono::Utc::now();
    store.append_history(fake_record("garbled", "yesterday-ish".to_string()));
    store.append_history(fake_record("old", (now - chrono::Duration::days(2)).to_rfc3339()));
    assert!(store.prune_history(HistoryRetention::Daily, instant(now)));
    let left = store.list_history();
    assert_eq!(left.len(), 1);
    assert_eq!(left[0].id, "garbled");
    assert!(!store.prune_history(HistoryRetention::Daily, instant(now)));
}

#[test]
fn prune_boundary_follows_the_retention_in_days() {
    let mut store = test_store();
    let now = chrono::Utc::now();
    store.append_history(fake_record("29d", (now - chrono::Duration::days(29)).to_rfc3339()));
    store.append_history(fake_record("31d", (now - chrono::Duration::days(31)).to_rfc3339()));
    store.prune_history(HistoryRetention::Monthly, instant(now));
    let ids: Vec<String> = store.list_history().into_iter().map(|r| r.id).collect();
    assert_eq!(ids, vec!["29d"]);
    assert_eq!(HistoryRetention::Weekly.max_age_days(), Some(7));
    assert_eq!(HistoryRetention::Never.max_age_days(), None);
    assert_eq!(HistoryRetention::default(), HistoryRetention::Never);
}

#[test]
fn appended_history_is_newest_first() {
    let mut store = test_store();
    store.append_history(fake_record("first", "t1".into()));
    store.append_history(fake_record("second", "t2".into()));
    let ids: Vec<String> = store.list_history().into_iter().map(|r| r.id).collect();
    assert_eq!(ids, vec!["second", "first"]);
    assert_eq!(store.history_state().records.len(), 2);
}

#[test]
fn settings_roundtrip_and_defaults() {
    let mut store = test_store();
    let defaults = store.load_settings();
    assert!(!defaults.save_dir.is_empty());
    assert_eq!(defaults.conflict_policy, ConflictPolicy::Rename);

    let mut updated = defaults;
    updated.auto_accept = true;
    updated.poll_interval_secs = 7;
    store.save_settings(&updated);
    let reloaded = store.load_settings();
    assert!(reloaded.auto_accept);
    assert_eq!(reloaded.poll_interval_secs, 7);
    assert!(store.settings_state().is_some());
}

#[test]
fn default_settings_of_a_fresh_install() {
    let s = Settings::default();
    assert!(!s.auto_accept);
    assert_eq!(s.poll_interval_secs, 3);
    assert_eq!(s.history_retention, HistoryRetention::Never);
    assert_eq!(taildrop::models::default_save_dir(None, None), ".");
    assert_eq!(taildrop::models::default_save_dir(None, Some("/home/u".into())), "/home/u");
    assert_eq!(
        taildrop::models::default_save_dir(Some("/dl".into()), Some("/home/u".into())),
        "/dl"
    );
}

#[test]
fn ingest_matches_sidecar_arriving_before_file() {
    let mut store = test_store();
    let sidecar_name = Store::sidecar_file_name("0b0e5b4e-9e33-4f4c-a0f7-3c3e0c1f6d11");
    let sidecar_path = format!("/staging/{sidecar_name}");
    let added = store.ingest_drained_files(vec![
        sidecar_file(&sidecar_path, Some(meta("photo.jpg", "alices-laptop"))),
        payload("/staging/photo.jpg", 14),
    ]);

    assert_eq!(added.len(), 1);
    assert_eq!(added[0].file_name, "photo.jpg");
    assert_eq!(added[0].sender_hostname.as_deref(), Some("alices-laptop"));
    assert_eq!(store.list_pending().len(), 1);
    assert!(store.pending_state().unmatched_sidecars.is_empty());
}

#[test]
fn ingest_matches_sidecar_arriving_after_file() {
    let mut store = test_store();
    let added = store.ingest_drained_files(vec![payload("/staging/report.pdf", 14)]);
    assert_eq!(added.len(), 1);
    assert_eq!(added[0].sender_hostname, None);

    let sidecar_path = format!("/staging/{}", Store::sidecar_file_name("5a4b"));
    store.ingest_drained_files(vec![sidecar_file(&sidecar_path, Some(meta("report.pdf", "bobs-phone")))]);

    let pending = store.list_pending();
    assert_eq!(pending.len(), 1);
    assert_eq!(pending[0].sender_hostname.as_deref(), Some("bobs-phone"));
    assert_eq!(pending[0].sender_dns_name.as_deref(), Some("bobs-phone.tailnet.ts.net"));
}

#[test]
fn unreadable_sidecars_are_dropped_and_never_pending() {
    let mut store = test_store();
    let added = store.ingest_drained_files(vec![
        sidecar_file("/staging/x.tdmeta.json", None),
        payload("/staging/a.bin", 3),
        payload("/staging/b.bin", 4),
    ]);
    assert_eq!(added.len(), 2);
    assert_ne!(added[0].id, added[1].id);
    assert_eq!(added[0].staged_path, "/staging/a.bin");
    assert_eq!(added[1].size, 4);
    assert!(store.pending_state().unmatched_sidecars.is_empty());
    assert!(Store::is_sidecar_file("abc.tdmeta.json"));
    assert!(!Store::is_sidecar_file("abc.tdmeta.json.txt"));
}

#[test]
fn a_sidecar_is_used_once() {
    let mut store = test_store();
    store.ingest_drained_files(vec![
        sidecar_file("/s/1.tdmeta.json", Some(meta("dup.txt", "carol"))),
        payload("/s/dup.txt", 1),
        payload("/s/dup (1).txt", 1),
    ]);
    let pending = store.list_pending();
    assert_eq!(pending[0].sender_hostname.as_deref(), Some("carol"));
    assert_eq!(pending[1].sender_hostname, None);
    store.ingest_drained_files(vec![sidecar_file("/s/2.tdmeta.json", Some(meta("other.txt", "dave")))]);
    assert_eq!(store.pending_state().unmatched_sidecars.len(), 1);
}

#[test]
fn take_pending_removes_exactly_that_entry_or_reports_not_found() {
    let mut store = test_store();
    let added = store.ingest_drained_files(vec![payload("/s/doc.txt", 5), payload("/s/pic.png", 6)]);
    let id = added[1].id.clone();
    let item = store.take_pending(&id).unwrap();
    assert_eq!(item.file_name, "pic.png");
    assert_eq!(store.list_pending().len(), 1);
    match store.take_pending(&id) {
        Err(TaildropError::NotFound(m)) => assert_eq!(m, format!("pending item {id}")),
        other => panic!("unexpected {other:?}"),
    }
    let e = store.take_pending("nope").unwrap_err();
    assert_eq!(e.message(), "not found: pending item nope");
}

#[test]
fn accept_records_history_and_empties_the_queue() {
    let mut store = test_store();
    let added = store.ingest_drained_files(vec![payload("/s/doc.txt", 5)]);
    let item = store.take_pending(&added[0].id).unwrap();
    let record = store.record_accepted(item, "/save/doc.txt".to_string());
    assert_eq!(record.status, TransferStatus::Completed);
    assert_eq!(record.saved_path.as_deref(), Some("/save/doc.txt"));
    assert_eq!(record.peer_hostname, "unknown");
    assert!(store.list_pending().is_empty());
    let history = store.list_history();
    assert_eq!(history.len(), 1);
    assert_eq!(history[0].direction, TransferDirection::Received);
    assert_eq!(history[0].id, added[0].id);
}

#[test]
fn reject_records_history_and_empties_the_queue() {
    let mut store = test_store();
    let added = store.ingest_drained_files(vec![
        sidecar_file("/s/q.tdmeta.json", Some(meta("unwanted.bin", "erin"))),
        payload("/s/unwanted.bin", 4),
    ]);
    let item = store.take_pending(&added[0].id).unwrap();
    let record = store.record_rejected(item);
    assert_eq!(record.status, TransferStatus::Rejected);
    assert_eq!(record.peer_hostname, "erin");
    assert_eq!(record.saved_path, None);
    assert!(store.list_pending().is_empty());
}

#[test]
fn resolve_destination_overwrite_vs_rename() {
    let taken = vec!["a.txt".to_string()];
    assert_eq!(resolve_destination("a.txt", &taken, ConflictPolicy::Overwrite, false), "a.txt");
    assert_eq!(resolve_destination("a.txt", &taken, ConflictPolicy::Rename, false), "a (1).txt");
    assert_eq!(resolve_destination("b.txt", &taken, ConflictPolicy::Rename, false), "b.txt");
}

#[test]
fn resolve_destination_splits_names_like_paths_do() {
    let taken: Vec<String> = vec![
        "archive.tar.gz".into(),
        "archive.tar (1).gz".into(),
        ".bashrc".into(),
        "README".into(),
        "dot.".into(),
    ];
    assert_eq!(resolve_destination("archive.tar.gz", &taken, ConflictPolicy::Rename, false), "archive.tar (2).gz");
    assert_eq!(resolve_destination(".bashrc", &taken, ConflictPolicy::Skip, false), ".bashrc (1)");
    assert_eq!(resolve_destination("README", &taken, ConflictPolicy::Rename, false), "README (1)");
    assert_eq!(resolve_destination("dot.", &taken, ConflictPolicy::Rename, false), "dot (1).");
}

#[test]
fn resolve_destination_always_finds_a_free_name() {
    let mut taken: Vec<String> = vec!["a.txt".to_string()];
    for n in 1..10_000 {
        taken.push(format!("a ({n}).txt"));
    }
    assert_eq!(resolve_destination("a.txt", &taken, ConflictPolicy::Rename, false), "a (10000).txt");
    assert_eq!(resolve_destination("a.txt", &taken, ConflictPolicy::Overwrite, false), "a.txt");
    taken.remove(9_999);
    assert_eq!(resolve_destination("a.txt", &taken, ConflictPolicy::Skip, false), "a (9999).txt");
}

#[test]
fn new_sidecar_names_carry_the_suffix() {
    let a = Store::new_sidecar_file_name();
    let b = Store::new_sidecar_file_name();
    assert!(a.ends_with(".tdmeta.json"));
    assert!(Store::is_sidecar_file(&a));
    assert_ne!(a, b);
}

#[test]
fn resolve_destination_ignores_case_where_the_file_system_does() {
    let taken: Vec<String> = vec!["DOC.txt".into(), "Doc (1).TXT".into()];
    assert_eq!(resolve_destination("doc.txt", &taken, ConflictPolicy::Rename, false), "doc.txt");
    assert_eq!(resolve_destination("doc.txt", &taken, ConflictPolicy::Rename, true), "doc (2).txt");
    assert_eq!(resolve_destination("doc.txt", &taken, ConflictPolicy::Overwrite, true), "doc.txt");
    let accented: Vec<String> = vec!["ÉTÉ.txt".into()];
    assert_eq!(resolve_destination("été.txt", &accented, ConflictPolicy::Rename, true), "été (1).txt");
}

#[test]
fn staging_poll_picks_only_settled_unclaimed_files() {
    let mut store = Store::open(
        "/r".to_string(),
        None,
        HistoryState { records: vec![] },
        PendingState {
            items: vec![PendingIncoming {
                id: "p1".into(),
                file_name: "old.bin".into(),
                staged_path: "/r/staging/old.bin".into(),
                size: 1,
                sender_hostname: None,
                sender_dns_name: None,
                received_at: "t".into(),
            }],
            unmatched_sidecars: vec![],
        },
    );
    let entries = vec![
        StagedEntry { path: "/r/staging/old.bin".into(), age_secs: 600 },
        StagedEntry { path: "/r/staging/new.bin".into(), age_secs: 60 },
        StagedEntry { path: "/r/staging/busy.bin".into(), age_secs: 0 },
    ];
    assert_eq!(store.unclaimed_staging_files(&entries), vec!["/r/staging/new.bin".to_string()]);
    let added = taildrop::poll_staging_once(&mut store, vec![payload("/r/staging/new.bin", 9)]);
    assert_eq!(added.len(), 1);
    assert!(taildrop::poll_staging_once(&mut store, vec![]).is_empty());
    assert_eq!(store.list_pending().len(), 2);
    assert!(taildrop::poll_inbox_once(&mut store, vec![]).is_empty());
}

#[test]
fn staging_dir_lives_under_the_root() {
    let store = Store::new(Some("/var/lib/td".to_string())).unwrap();
    assert_eq!(store.root(), "/var/lib/td");
    assert!(store.staging_dir().ends_with("staging"));
    assert_eq!(store.staging_dir(), std::path::Path::new("/var/lib/td").join("staging").to_string_lossy());
    assert_eq!(Store::sidecar_file_name("abc"), "abc.tdmeta.json");
}

#[test]
fn load_or_init_settings_reads_the_store() {
    let mut store = test_store();
    let mut s = Settings::default();
    s.conflict_policy = ConflictPolicy::Overwrite;
    store.save_settings(&s);
    assert_eq!(taildrop::load_or_init_settings(&store).conflict_policy, ConflictPolicy::Overwrite);
}
