use medium::cli::{
    candidate_order_for_test, help_text, immediate_output, joined_message, paired_message, parse,
    render_control_devices, render_devices, restarted_message, ssh_service_for, synced_message, Command, ProxyTargetError, RegistryRow, RegistryService,
};
use medium::ssh::SyncReport;
use medium::state::AppState;
use medium::protocol::{
    ordered_candidates, CandidateKind, DeviceRecord, PeerCandidate, SessionAuthorization, SessionOpenGrant, SshEndpoint,
};
use medium::toml::parse_simple_toml_string;

fn args(list: &[&str]) -> Vec<String> {
    list.iter().map(|s| s.to_string()).collect()
}

#[test]
fn medium_info_prints_the_summary() {
    let command = parse(&args(&["medium", "info"])).unwrap();
    assert_eq!(immediate_output(&command).unwrap(), "Medium CLI");
}

#[test]
fn medium_normalize_label_trims() {
    let command = parse(&args(&["medium", "normalize-label", "  phone  "])).unwrap();
    assert_eq!(immediate_output(&command).unwrap(), "phone");
}

#[test]
fn medium_rejects_unknown_commands() {
    let error = parse(&args(&["medium", "bad"])).unwrap_err();
    assert_eq!(error, "unknown command: bad\n\nRun: medium help");
}

#[test]
fn parse_reads_every_command() {
    assert!(matches!(parse(&args(&["medium"])), Ok(Command::Help)));
    assert!(matches!(parse(&args(&["medium", "-h"])), Ok(Command::Help)));
    assert!(matches!(parse(&args(&["medium", "init-control"])), Ok(Command::InitControl { reconfigure: false })));
    assert!(matches!(parse(&args(&["medium", "init-control", "--reconfigure"])), Ok(Command::InitControl { reconfigure: true })));
    assert!(matches!(parse(&args(&["medium", "init-node", "inv"])), Ok(Command::InitNode { ref invite, reconfigure: false }) if invite == "inv"));
    assert!(matches!(parse(&args(&["medium", "init-node", "inv", "--reconfigure"])), Ok(Command::InitNode { reconfigure: true, .. })));
    assert!(matches!(parse(&args(&["medium", "join", "x"])), Ok(Command::Join { ref invite }) if invite == "x"));
    assert!(matches!(
        parse(&args(&["medium", "pair", "--server", "https://s", "--device", "d"])),
        Ok(Command::Pair { ref server_url, ref device_name }) if server_url == "https://s" && device_name == "d"
    ));
    assert!(matches!(parse(&args(&["medium", "devices"])), Ok(Command::Devices)));
    assert!(matches!(parse(&args(&["medium", "control", "devices"])), Ok(Command::ControlDevices)));
    assert!(matches!(parse(&args(&["medium", "control", "restart"])), Ok(Command::ControlRestart)));
    assert!(matches!(parse(&args(&["medium", "ssh", "sync"])), Ok(Command::SshSync { write_main_config: false })));
    assert!(matches!(parse(&args(&["medium", "ssh", "sync", "--write-main-config"])), Ok(Command::SshSync { write_main_config: true })));
    assert!(matches!(parse(&args(&["medium", "proxy", "ssh", "--device", "n"])), Ok(Command::ProxySsh { ref device_name }) if device_name == "n"));
    assert!(matches!(parse(&args(&["medium", "doctor"])), Ok(Command::Doctor)));
    assert!(matches!(parse(&args(&["medium", "run"])), Ok(Command::Run { config_path: None })));
    assert!(matches!(parse(&args(&["medium", "run", "--config", "/c.toml"])), Ok(Command::Run { config_path: Some(ref p) }) if p == "/c.toml"));
    assert_eq!(parse(&args(&[])).unwrap_err(), "missing argv[0]\n\nRun: medium help");
    assert_eq!(parse(&args(&["medium", "ssh", "sync", "--force"])).unwrap_err(), "unknown command: ssh\n\nRun: medium help");
}

#[test]
fn help_lists_the_commands() {
    let command = parse(&args(&["medium", "help"])).unwrap();
    let text = immediate_output(&command).unwrap();
    assert_eq!(text, help_text());
    assert!(text.starts_with("Medium CLI\n\nUsage:\n  medium <command> [options]\n"));
    assert!(text.contains("medium proxy ssh --device <name>"));
    assert!(immediate_output(&Command::Doctor).is_none());
}

#[test]
fn devices_listing_shows_ssh_endpoints() {
    let devices = vec![
        DeviceRecord {
            id: "node-home".into(),
            name: "node-home".into(),
            ssh: Some(SshEndpoint { service_id: "svc".into(), host: "127.0.0.1".into(), port: 2222, user: "overlay".into() }),
        },
        DeviceRecord { id: "phone".into(), name: "phone".into(), ssh: None },
    ];
    assert_eq!(render_devices(&devices), "node-home ssh overlay@127.0.0.1:2222\nphone no-ssh");
    assert_eq!(render_devices(&[]), "");
}

fn row(node: &str, service: Option<(&str, &str, &str, Option<&str>)>) -> RegistryRow {
    RegistryRow {
        node_id: node.into(),
        node_label: format!("{node} label"),
        last_seen_at: "2024-01-01".into(),
        service: service.map(|(id, kind, target, label)| RegistryService {
            id: id.into(),
            kind: kind.into(),
            target: target.into(),
            label: label.map(|l| l.to_string()),
        }),
    }
}

#[test]
fn control_registry_is_rendered_per_node() {
    assert_eq!(render_control_devices(&[]), "no registered nodes");
    let rows = vec![
        row("a", Some(("svc_a", "ssh", "127.0.0.1:22", Some("Home SSH")))),
        row("a", Some(("svc_b", "https", "127.0.0.1:443", Some("svc_b")))),
        row("b", None),
        row("c", Some(("svc_c", "https", "127.0.0.1:3000", None))),
        row("d", None),
    ];
    assert_eq!(
        render_control_devices(&rows),
        "a label (a) last_seen=2024-01-01\n  svc_a ssh \"Home SSH\" -> 127.0.0.1:22\n  svc_b https -> 127.0.0.1:443\nb label (b) last_seen=2024-01-01\n  no published services\nc label (c) last_seen=2024-01-01\n  svc_c https -> 127.0.0.1:3000\nd label (d) last_seen=2024-01-01\n  no published services"
    );
}

fn candidate(kind: CandidateKind, addr: &str, priority: u32) -> PeerCandidate {
    PeerCandidate { kind, addr: addr.into(), priority }
}

fn grant(candidates: Vec<PeerCandidate>) -> SessionOpenGrant {
    SessionOpenGrant {
        session_id: "sess1".into(),
        service_id: "svc_openclaw".into(),
        node_id: "node-1".into(),
        relay_hint: None,
        authorization: SessionAuthorization { token: "token".into(), expires_at: 0, candidates },
    }
}

#[test]
fn session_grant_contains_candidate_for_direct_connect() {
    let g = grant(vec![candidate(CandidateKind::DirectTcp, "198.51.100.10:7001", 100)]);
    assert_eq!(g.authorization.candidates[0].addr, "198.51.100.10:7001");
    assert_eq!(candidate_order_for_test(&g), vec![CandidateKind::DirectTcp]);
}

#[test]
fn candidates_are_tried_by_priority_keeping_ties_in_order() {
    let g = grant(vec![
        candidate(CandidateKind::RelayTcp, "relay-1", 10),
        candidate(CandidateKind::DirectTcp, "direct", 100),
        candidate(CandidateKind::WssRelay, "wss", 10),
        candidate(CandidateKind::RelayTcp, "relay-2", 50),
    ]);
    let ordered = ordered_candidates(&g);
    let addrs: Vec<&str> = ordered.iter().map(|c| c.addr.as_str()).collect();
    assert_eq!(addrs, vec!["direct", "relay-2", "relay-1", "wss"]);
    assert_eq!(
        candidate_order_for_test(&g),
        vec![CandidateKind::DirectTcp, CandidateKind::RelayTcp, CandidateKind::RelayTcp, CandidateKind::WssRelay]
    );
}

#[test]
fn first_toml_definition_is_read_for_a_key() {
    let raw = "# comment\ndatabase_url = \"sqlite:///a.db\" # trailing\ndatabase_url = \"sqlite:///b.db\"\n";
    assert_eq!(parse_simple_toml_string(raw, "database_url").as_deref(), Some("sqlite:///a.db"));
    assert_eq!(parse_simple_toml_string(raw, "missing"), None);
    assert_eq!(parse_simple_toml_string("k = v\n", "k"), None);
}

#[test]
fn command_reports_name_what_was_done() {
    let state = AppState {
        server_url: "https://control.example".to_string(),
        device_name: "laptop".to_string(),
        bootstrap_code: "ovr-123".to_string(),
        invite_version: 1,
    };
    assert_eq!(joined_message(&state), "joined laptop via https://control.example using invite v1");
    assert_eq!(
        paired_message(&state),
        "paired laptop with https://control.example using bootstrap code ovr-123"
    );
    let report = SyncReport { main_config_updated: true, managed_backup_path: None, hosts_written: 12 };
    assert_eq!(
        synced_message(&report, "/h/.ssh/config.d/medium.conf"),
        "synced 12 SSH hosts into /h/.ssh/config.d/medium.conf and updated ~/.ssh/config"
    );
    let quiet = SyncReport { main_config_updated: false, managed_backup_path: None, hosts_written: 0 };
    assert_eq!(synced_message(&quiet, "x"), "synced 0 SSH hosts into x");
    let services = vec!["a.service".to_string(), "b.service".to_string()];
    assert_eq!(restarted_message(&services), "restarted a.service, b.service");
    assert_eq!(restarted_message(&[]), "restarted ");
}

#[test]
fn proxy_target_is_first_device_with_the_name() {
    let devices = vec![
        DeviceRecord { id: "d1".to_string(), name: "alpha".to_string(), ssh: None },
        DeviceRecord {
            id: "d2".to_string(),
            name: "beta".to_string(),
            ssh: Some(SshEndpoint {
                service_id: "svc_beta".to_string(),
                host: "beta.medium".to_string(),
                port: 22,
                user: "root".to_string(),
            }),
        },
        DeviceRecord {
            id: "d3".to_string(),
            name: "beta".to_string(),
            ssh: Some(SshEndpoint {
                service_id: "svc_other".to_string(),
                host: "x".to_string(),
                port: 22,
                user: "root".to_string(),
            }),
        },
    ];
    assert_eq!(ssh_service_for(&devices, "beta").unwrap(), "svc_beta");
    let no_ssh = ssh_service_for(&devices, "alpha").unwrap_err();
    assert_eq!(no_ssh, ProxyTargetError::NoSshEndpoint("alpha".to_string()));
    assert_eq!(no_ssh.message(), "device alpha has no SSH endpoint");
    let unknown = ssh_service_for(&devices, "gamma").unwrap_err();
    assert_eq!(unknown.message(), "unknown device gamma");
}
