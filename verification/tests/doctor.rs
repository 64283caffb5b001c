use medium::doctor::{
    control_config_line, include_status, inspect, managed_ssh_status, node_config_line, path_line,
    service_line, service_status, state_line, DoctorFacts, DoctorReport, SshInspection, SshStatus,
};
use medium::paths::{AppPaths, Platform};
use medium::state::AppState;
use medium::toml::{parse_simple_toml_string_line, parse_simple_toml_strings, toml_value};

const CONTROL_OK: &str = "bind_addr = \"0.0.0.0:8080\"\ndatabase_url = \"sqlite:///tmp/control-plane.db\"\ncontrol_url = \"https://control.example.test\"\nshared_secret = \"secret\"\n";
const NODE_OK: &str = "node_id = \"node-home\"\nnode_label = \"node-home\"\nbind_addr = \"198.51.100.24:17001\"\n\n[[services]]\nid = \"svc_home_ssh\"\nkind = \"ssh\"\ntarget = \"127.0.0.1:22\"\nuser_name = \"overlay\"\n";
const LEGACY_MANAGED: &str = "# Managed by overlay. DO NOT EDIT.\n\nHost node-1\n  ProxyCommand overlay proxy ssh --device node-1\n";

fn empty_facts() -> DoctorFacts {
    DoctorFacts {
        app_config_dir_exists: false,
        state_dir_exists: false,
        current_state: None,
        legacy_state: None,
        control_config_exists: false,
        control_config: None,
        node_config_exists: false,
        node_config: None,
        control_db_exists: false,
        control_plane_bin_exists: false,
        node_agent_bin_exists: false,
        ssh_main_config: None,
        managed_ssh_exists: false,
        legacy_overlay: None,
        control_enabled: None,
        control_active: None,
        node_enabled: None,
        node_active: None,
    }
}

fn state(device: &str, url: &str) -> AppState {
    AppState {
        server_url: url.into(),
        device_name: device.into(),
        bootstrap_code: "bootstrap-123".into(),
        invite_version: 1,
    }
}

#[test]
fn doctor_doctor_reports_missing_client_and_server_state() {
    let paths = AppPaths::from_home("/tmp/t/home", Platform::Linux);
    let output = inspect(&paths, "/tmp/t/root", &empty_facts(), Platform::Linux).render();

    assert!(output.contains("config-dir: missing"));
    assert!(output.contains("join-state: missing"));
    assert!(output.contains("control-config: missing"));
    assert!(output.contains("control-config-valid: missing"));
    assert!(output.contains("node-config-valid: missing"));
    assert!(output.contains("control-db: missing"));
    assert!(output.contains("ssh-managed-config: missing"));
    assert!(output.contains("service medium-control-plane.service: unavailable"));
    assert!(output.contains("service medium-node-agent.service: unavailable"));
    assert!(output.contains(&paths.state_path));
}

#[test]
fn doctor_doctor_reports_bootstrapped_files_and_service_statuses() {
    let paths = AppPaths::from_home("/tmp/t/home", Platform::Linux);
    let mut facts = empty_facts();
    facts.app_config_dir_exists = true;
    facts.state_dir_exists = true;
    facts.current_state = Some(state("laptop", "https://control.example.test"));
    facts.control_config_exists = true;
    facts.control_config = Some(CONTROL_OK.into());
    facts.node_config_exists = true;
    facts.node_config = Some(NODE_OK.into());
    facts.control_db_exists = true;
    facts.ssh_main_config = Some("Include ~/.ssh/config.d/medium.conf\nHost existing\n  HostName example.test\n".into());
    facts.managed_ssh_exists = true;
    facts.control_enabled = service_status(true, "enabled\n", true);
    facts.control_active = service_status(true, "active\n", true);
    facts.node_enabled = service_status(true, "disabled\n", false);
    facts.node_active = service_status(true, "inactive\n", false);
    let output = inspect(&paths, "/tmp/t/root", &facts, Platform::Linux).render();

    assert!(output.contains("config-dir: ok"));
    assert!(output.contains("join-state: ok (device laptop via https://control.example.test)"));
    assert!(output.contains("control-config: ok"));
    assert!(output.contains("control-config-valid: ok"));
    assert!(output.contains("node-config: ok"));
    assert!(output.contains("node-config-valid: ok"));
    assert!(output.contains("control-db: ok"));
    assert!(output.contains("ssh-include: ok"));
    assert!(output.contains("ssh-managed-config: ok"));
    assert!(output.contains("service medium-control-plane.service: enabled, active"));
    assert!(output.contains("service medium-node-agent.service: disabled, inactive"));
}

#[test]
fn doctor_doctor_reads_legacy_state_and_ssh_without_migrating() {
    let paths = AppPaths::from_home("/tmp/t/home", Platform::Linux);
    let mut facts = empty_facts();
    facts.legacy_state = Some(state("legacy-laptop", "https://legacy-control.example.test"));
    facts.ssh_main_config = Some("Include ~/.ssh/config.d/overlay.conf\nHost existing\n  HostName example.test\n".into());
    facts.legacy_overlay = Some(LEGACY_MANAGED.into());
    facts.control_config_exists = true;
    facts.control_config = Some("bind_addr = \"0.0.0.0:7777\"\ndatabase_url = \"sqlite:///tmp/control-plane.db\"\ncontrol_url = \"https://control.example.test\"\nshared_secret = \"secret\"\ncontrol_pin = \"ctrl_pub_123\"\n".into());
    facts.node_config_exists = true;
    facts.node_config = Some("node_id = \"node-1\"\nnode_label = \"node-1\"\nbind_addr = \"198.51.100.24:17001\"\n\n[[services]]\nid = \"svc_ssh\"\nkind = \"ssh\"\ntarget = \"127.0.0.1:22\"\nuser_name = \"overlay\"\n".into());
    facts.control_db_exists = true;
    let output = inspect(&paths, "/tmp/t/root", &facts, Platform::Linux).render();

    assert!(output.contains("join-state: ok (device legacy-laptop via https://legacy-control.example.test"));
    assert!(output.contains("legacy state"));
    assert!(output.contains("/tmp/t/home/.config/overlay/state.json"));
    assert!(output.contains("ssh-include: ok (legacy overlay.conf)"));
    assert!(output.contains("ssh-managed-config: ok (legacy"));
}

#[test]
fn doctor_doctor_reports_structurally_invalid_configs() {
    let paths = AppPaths::from_home("/tmp/t/home", Platform::Linux);
    let mut facts = empty_facts();
    facts.control_config_exists = true;
    facts.control_config = Some("# bind_addr = \"0.0.0.0:8080\"\n# database_url = \"sqlite:///tmp/control-plane.db\"\ncontrol_url = \"https://control.example.test\"\nshared_secret = \"secret\"\n".into());
    facts.node_config_exists = true;
    facts.node_config = Some("# node_id = \"node-1\"\nnode_label = \"node-1\"\n".into());
    let output = inspect(&paths, "/tmp/t/root", &facts, Platform::Linux).render();

    assert!(output.contains("control-config: ok"));
    assert!(output.contains("control-config-valid: invalid"));
    assert!(output.contains("control-config-valid: invalid (missing bind_addr, database_url)"));
    assert!(output.contains("node-config: ok"));
    assert!(output.contains("node-config-valid: invalid"));
}

#[test]
fn doctor_does_not_treat_user_owned_overlay_conf_as_legacy_managed_state() {
    let paths = AppPaths::from_home("/tmp/t/home", Platform::Linux);
    let mut facts = empty_facts();
    facts.ssh_main_config = Some("Include ~/.ssh/config.d/overlay.conf\nHost existing\n  HostName example.test\n".into());
    facts.legacy_overlay = Some("Host corp-bastion\n  HostName bastion.example.com\n  User alice\n".into());
    let output = inspect(&paths, "/", &facts, Platform::Linux).render();

    assert!(output.contains("ssh-include: missing"));
    assert!(output.contains("ssh-managed-config: missing"));
    assert!(!output.contains("legacy overlay.conf"));
}

#[test]
fn doctor_prefers_current_medium_ssh_state_over_legacy_overlay_state() {
    let paths = AppPaths::from_home("/tmp/t/home", Platform::Linux);
    let mut facts = empty_facts();
    facts.ssh_main_config = Some("Include ~/.ssh/config.d/overlay.conf\nInclude ~/.ssh/config.d/medium.conf\n".into());
    facts.legacy_overlay = Some(LEGACY_MANAGED.into());
    facts.managed_ssh_exists = true;
    let output = inspect(&paths, "/", &facts, Platform::Linux).render();

    assert!(output.contains("ssh-include: ok"));
    assert!(output.contains("ssh-managed-config: ok"));
    assert!(!output.contains("ssh-include: ok (legacy overlay.conf)"));
    assert!(!output.contains("ssh-managed-config: ok (legacy overlay.conf)"));
}

#[test]
fn doctor_lists_install_paths_under_the_root() {
    let paths = AppPaths::from_home("/home/u", Platform::Linux);
    let report = inspect(&paths, "/", &empty_facts(), Platform::Linux);
    assert_eq!(report.lines.len(), 14);
    assert_eq!(report.lines[0], "config-dir: missing (/home/u/.medium)");
    assert_eq!(report.lines[3], "control-config: missing (/etc/medium/control.toml)");
    assert_eq!(report.lines[5], "node-config: missing (/etc/medium/node.toml)");
    assert_eq!(report.lines[7], "control-db: missing (/var/lib/medium/control-plane.db)");
    assert_eq!(report.lines[8], "control-plane-bin: missing (/usr/bin/control-plane)");
    assert_eq!(report.lines[9], "node-agent-bin: missing (/usr/bin/node-agent)");
}

#[test]
fn doctor_report_renders_lines_joined_by_newlines() {
    let report = DoctorReport { lines: vec!["a".into(), "b".into(), "c".into()] };
    assert_eq!(report.render(), "a\nb\nc");
    assert_eq!(DoctorReport { lines: vec![] }.render(), "");
}

#[test]
fn doctor_line_builders() {
    assert_eq!(path_line("state-dir", true, "/x"), "state-dir: ok (/x)");
    let paths = AppPaths::from_home("/h", Platform::Linux);
    assert_eq!(state_line(&paths, &None, &None), "join-state: missing (/h/.local/share/medium/state.json)");
    assert_eq!(
        state_line(&paths, &Some(state("a", "u")), &Some(state("b", "v"))),
        "join-state: ok (device a via u)"
    );
    assert_eq!(control_config_line(&Some(String::new())), "control-config-valid: invalid (missing bind_addr, database_url, control_url, shared_secret)");
    assert_eq!(control_config_line(&Some(CONTROL_OK.replace("secret\"", " \""))), "control-config-valid: invalid (missing shared_secret)");
    assert_eq!(node_config_line(&Some(NODE_OK.into())), "node-config-valid: ok");
    assert_eq!(node_config_line(&Some("node_id = \"n\"\nbind_addr = \"  \"\n".into())), "node-config-valid: invalid (missing node_id or bind_addr)");
    assert_eq!(service_line("x.service", &Some("enabled".into()), &None), "service x.service: unavailable");
}

#[test]
fn systemctl_answers_are_read_like_the_tool_prints_them() {
    assert_eq!(service_status(false, "", true), None);
    assert_eq!(service_status(true, "  active \n", false), Some("active".to_string()));
    assert_eq!(service_status(true, "\n", false), None);
    assert_eq!(service_status(true, "", true), Some("ok".to_string()));
}

#[test]
fn ssh_statuses_render() {
    assert_eq!(SshStatus::Missing.render(), "missing");
    assert_eq!(SshStatus::Present.render(), "ok");
    assert_eq!(SshStatus::Legacy.render(), "ok (legacy overlay.conf)");
    let ssh = SshInspection { include_status: SshStatus::Legacy, managed_status: SshStatus::Present };
    assert_eq!(ssh.include_line(), "ssh-include: ok (legacy overlay.conf)");
    assert_eq!(ssh.managed_line(), "ssh-managed-config: ok");
    assert_eq!(include_status(&None, true), SshStatus::Missing);
    assert_eq!(include_status(&Some("Include ~/.ssh/config.d/overlay.conf\n".into()), false), SshStatus::Missing);
    assert_eq!(managed_ssh_status(false, true), SshStatus::Legacy);
    assert_eq!(managed_ssh_status(true, true), SshStatus::Present);
}

#[test]
fn simple_toml_lines_are_read() {
    assert_eq!(
        parse_simple_toml_string_line("  key = \"value\"  # note"),
        Some(("key".to_string(), "value".to_string()))
    );
    assert_eq!(parse_simple_toml_string_line("[section]"), None);
    assert_eq!(parse_simple_toml_string_line("# key = \"v\""), None);
    assert_eq!(parse_simple_toml_string_line("key = 5"), None);
    assert_eq!(parse_simple_toml_string_line(" = \"v\""), None);
    assert_eq!(parse_simple_toml_string_line("key = \""), None);
    let pairs = parse_simple_toml_strings("a = \"1\"\nb = \"2\"\na = \"3\"\n");
    assert_eq!(pairs.len(), 3);
    assert_eq!(toml_value(&pairs, "a"), Some("3".to_string()));
    assert_eq!(toml_value(&pairs, "b"), Some("2".to_string()));
    assert_eq!(toml_value(&pairs, "c"), None);
}

#[test]
fn written_control_config_reads_back_and_passes_doctor() {
    let config = medium::install::control_config_contents(
        "127.0.0.1:8080",
        "https://control.example",
        "/var/lib/medium/control-plane.db",
        "medium-shared-secret-1f",
        "medium-control-key-2a",
    );
    assert_eq!(
        medium::toml::parse_simple_toml_string(&config, "database_url").as_deref(),
        Some("sqlite:///var/lib/medium/control-plane.db")
    );
    assert_eq!(
        medium::toml::parse_simple_toml_string(&config, "control_key").as_deref(),
        Some("medium-control-key-2a")
    );
    assert_eq!(control_config_line(&Some(config)), "control-config-valid: ok");
}

#[test]
fn doctor_sees_include_after_sync_rewrite() {
    let devices: Vec<medium::protocol::DeviceRecord> = Vec::new();
    let main = "Host example\n  User me\nInclude ~/.ssh/config.d/overlay.conf\n";
    let legacy = "# Managed by overlay.\n";
    let plan = medium::ssh::plan_ssh_sync(Some(main), false, Some(legacy), &devices, true);
    let next = plan.main_config.unwrap().unwrap();
    assert_eq!(include_status(&Some(next.clone()), true), SshStatus::Present);
    assert_eq!(include_status(&Some(next), false), SshStatus::Present);
}

#[test]
fn doctor_uses_macos_application_support_and_usr_local_bins() {
    let paths = AppPaths::from_home("/tmp/t/home", Platform::MacOs);
    let mut facts = empty_facts();
    facts.app_config_dir_exists = true;
    facts.state_dir_exists = true;
    facts.node_config_exists = true;
    facts.node_config = Some("node_id = \"mac-node\"\nnode_label = \"mac-node\"\nbind_addr = \"127.0.0.1:17001\"\n\n[[services]]\nid = \"svc_ssh\"\nkind = \"ssh\"\ntarget = \"127.0.0.1:22\"\nuser_name = \"overlay\"\n".into());
    let output = inspect(&paths, "/", &facts, Platform::MacOs).render();

    let expected_node_config = format!("node-config: ok ({}/node.toml)", paths.app_config_dir);
    assert!(output.contains(&expected_node_config), "expected {expected_node_config:?} in output:\n{output}");
    assert!(output.contains("node-config-valid: ok"));
    assert!(output.contains("control-plane-bin:"));
    assert!(output.contains("/usr/local/bin/control-plane"));
    assert!(output.contains("/usr/local/bin/node-agent"));
    assert!(paths.state_dir.contains("Library/Application Support/Medium"));
}
