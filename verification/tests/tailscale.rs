use taildrop::error::TaildropError;
use taildrop::models::ConflictPolicy;
use taildrop::tailscale::{
    cache_action, file_get_args, new_entries, may_reuse_stored, invocation_result, join_args, parse_cp_targets,
    send_file_args, tailnet_status, timeout_error, CacheAction, RawPeer,
};

fn raw(host: &str, dns: &str) -> RawPeer {
    RawPeer {
        id: "1".into(),
        host_name: host.into(),
        dns_name: dns.into(),
        os: "linux".into(),
        tailscale_ips: vec![],
        online: true,
        last_seen: None,
        rx_bytes: 0,
        tx_bytes: 0,
    }
}

#[test]
fn parses_online_and_offline_targets() {
    let out = "100.73.188.63\t11pm\toffline; last seen 981h1m0s ago\n\
                100.89.224.39\tcmf\toffline; last seen 1021h3m0s ago\n\
                100.124.5.74\tpekarnya\n";
    let targets = parse_cp_targets(out);
    assert_eq!(targets.len(), 3);
    assert_eq!(targets[0].ip, "100.73.188.63");
    assert_eq!(targets[0].name, "11pm");
    assert!(targets[0].offline);
    assert_eq!(targets[2].name, "pekarnya");
    assert!(!targets[2].offline);
}

#[test]
fn alias_prefers_first_dns_label_over_hostname() {
    let peer = RawPeer {
        id: "1".into(),
        host_name: "DESKTOP-ABC123".into(),
        dns_name: "renamed-machine.tailnet-name.ts.net.".into(),
        os: "linux".into(),
        tailscale_ips: vec![],
        online: true,
        last_seen: None,
        rx_bytes: 0,
        tx_bytes: 0,
    }
    .into_peer(false);
    assert_eq!(peer.alias, "renamed-machine");
    assert_eq!(peer.hostname, "DESKTOP-ABC123");
}

#[test]
fn alias_falls_back_to_hostname_when_dns_name_missing() {
    let peer = RawPeer {
        id: "1".into(),
        host_name: "DESKTOP-ABC123".into(),
        dns_name: "".into(),
        os: "linux".into(),
        tailscale_ips: vec![],
        online: true,
        last_seen: None,
        rx_bytes: 0,
        tx_bytes: 0,
    }
    .into_peer(false);
    assert_eq!(peer.alias, "DESKTOP-ABC123");
}

#[test]
fn ignores_blank_lines() {
    assert!(parse_cp_targets("\n\n").is_empty());
    assert!(parse_cp_targets("").is_empty());
}

#[test]
fn targets_trim_fields_and_strip_carriage_returns() {
    let targets = parse_cp_targets("  100.1.2.3 \t laptop \t  offline\r\n100.1.2.4\tphone\tonline\r\n");
    assert_eq!(targets.len(), 2);
    assert_eq!(targets[0].ip, "100.1.2.3");
    assert_eq!(targets[0].name, "laptop");
    assert!(targets[0].offline);
    assert_eq!(targets[1].name, "phone");
    assert!(!targets[1].offline);
}

#[test]
fn targets_need_an_address_and_a_name() {
    assert!(parse_cp_targets("100.1.2.3\n\tname-only\n100.1.2.3\t  \n").is_empty());
    let targets = parse_cp_targets("100.1.2.3\tdesk");
    assert_eq!(targets.len(), 1);
    assert_eq!(targets[0].name, "desk");
    assert!(!targets[0].offline);
}

#[test]
fn dns_name_loses_trailing_dots_and_keeps_the_rest() {
    let peer = raw("host", "box.example.ts.net..").into_peer(true);
    assert_eq!(peer.dns_name, "box.example.ts.net");
    assert_eq!(peer.alias, "box");
    assert!(peer.is_self);
}

#[test]
fn alias_falls_back_when_the_first_label_is_empty() {
    let peer = raw("fallback", ".example.").into_peer(false);
    assert_eq!(peer.alias, "fallback");
    assert_eq!(peer.dns_name, ".example");
}

#[test]
fn peers_are_ordered_by_host_name_ignoring_case() {
    let status = tailnet_status(
        raw("me", "me.ts.net."),
        vec![raw("zeta", ""), raw("Alpha", ""), raw("beta", ""), raw("ÉCLAIR", ""), raw("Écrou", "")],
    );
    let names: Vec<String> = status.peers.iter().map(|p| p.hostname.clone()).collect();
    assert_eq!(names, vec!["Alpha", "beta", "zeta", "ÉCLAIR", "Écrou"]);
    assert!(status.self_peer.is_self);
    assert!(status.peers.iter().all(|p| !p.is_self));
}

#[test]
fn peers_with_the_same_name_keep_their_order() {
    let mut first = raw("Laptop", "");
    first.id = "first".into();
    let mut second = raw("laptop", "");
    second.id = "second".into();
    let mut third = raw("LAPTOP", "");
    third.id = "third".into();
    let status = tailnet_status(raw("me", ""), vec![raw("zed", ""), first, second, raw("alpha", ""), third]);
    let ids: Vec<String> = status.peers.iter().map(|p| p.id.clone()).collect();
    assert_eq!(ids, vec!["1", "first", "second", "third", "1"]);
    let names: Vec<String> = status.peers.iter().map(|p| p.hostname.clone()).collect();
    assert_eq!(names, vec!["alpha", "Laptop", "laptop", "LAPTOP", "zed"]);
}

#[test]
fn send_arguments_carry_the_target_with_a_colon() {
    assert_eq!(send_file_args("laptop", "/tmp/a.txt", None), vec!["file", "cp", "/tmp/a.txt", "laptop:"]);
    assert_eq!(
        send_file_args("laptop", "/tmp/x", Some("id.tdmeta.json")),
        vec!["file", "cp", "--name", "id.tdmeta.json", "/tmp/x", "laptop:"]
    );
}

#[test]
fn file_get_arguments_name_the_conflict_policy() {
    assert_eq!(file_get_args("/s", ConflictPolicy::Rename, false), vec!["file", "get", "--conflict=rename", "/s"]);
    assert_eq!(
        file_get_args("/s", ConflictPolicy::Skip, true),
        vec!["file", "get", "--loop", "--conflict=skip", "/s"]
    );
    assert_eq!(ConflictPolicy::Overwrite.as_flag(), "overwrite");
}

#[test]
fn failed_invocation_reports_error_output_or_exit_status() {
    let args = vec!["file".to_string(), "cp".to_string()];
    assert_eq!(join_args(&args), "file cp");
    match invocation_result(&args, false, String::new(), "  boom \n", "exit status: 1") {
        Err(TaildropError::Command(m)) => assert_eq!(m, "boom"),
        other => panic!("unexpected {other:?}"),
    }
    match invocation_result(&args, false, String::new(), " \n", "exit status: 2") {
        Err(TaildropError::Command(m)) => assert_eq!(m, "`tailscale file cp` exited with exit status: 2"),
        other => panic!("unexpected {other:?}"),
    }
    assert_eq!(invocation_result(&args, true, "out".to_string(), "ignored", "").unwrap(), "out");
}

#[test]
fn timeout_message_names_the_command_and_seconds() {
    let args = vec!["file".to_string(), "cp".to_string(), "a".to_string()];
    let e = timeout_error(&args, 25);
    match &e {
        TaildropError::Timeout(m) => {
            assert_eq!(m, "`tailscale file cp a` timed out after 25s \u{2014} the device may be offline")
        }
        other => panic!("unexpected {other:?}"),
    }
    assert!(e.message().starts_with("timeout: "));
}

#[test]
fn cache_serves_then_refreshes_then_fetches() {
    assert_eq!(cache_action(false, Some(19_999)), CacheAction::Serve);
    assert_eq!(cache_action(false, Some(20_000)), CacheAction::ServeAndRefresh);
    assert_eq!(cache_action(false, Some(299_999)), CacheAction::ServeAndRefresh);
    assert_eq!(cache_action(false, Some(300_000)), CacheAction::Fetch);
    assert_eq!(cache_action(false, None), CacheAction::Fetch);
    assert_eq!(cache_action(true, Some(0)), CacheAction::Fetch);
    assert!(may_reuse_stored(false, Some(5)));
    assert!(!may_reuse_stored(false, Some(20_000)));
    assert!(!may_reuse_stored(false, None));
    assert!(!may_reuse_stored(true, Some(5)));
}

#[test]
fn a_fresh_request_bypasses_the_cache() {
    for age in [None, Some(0), Some(19_999), Some(20_000), Some(300_000)] {
        assert_eq!(cache_action(true, age), CacheAction::Fetch);
        assert!(!may_reuse_stored(true, age));
    }
}

#[test]
fn a_drain_brings_the_entries_that_were_not_there_before() {
    let before = vec!["/s/a".to_string(), "/s/b".to_string()];
    let after = vec!["/s/c".to_string(), "/s/a".to_string(), "/s/d".to_string(), "/s/b".to_string()];
    assert_eq!(new_entries(&before, &after), vec!["/s/c".to_string(), "/s/d".to_string()]);
    assert!(new_entries(&after, &before).is_empty());
}
