use medium::install::{
    control_bind_addr, control_config_contents, control_plane_binary_path, control_public_url, env_value,
    init_control, is_unsuitable_public_host, make_token, node_addrs, node_agent_binary_path,
    node_config_contents, render_unit, should_enable_systemd_services, split_host_port, systemctl_bin,
    systemd_enable_commands, ConfigError, ExistingPaths, InitControlInputs, InstallError, InstallLayout,
};
use medium::cli::init_control_message;
use medium::toml::parse_simple_toml_string;

fn nothing_exists() -> ExistingPaths {
    ExistingPaths { control_config: false, node_config: false, database: false, config_dir: false, state_dir: false }
}

fn inputs(root: &str) -> InitControlInputs {
    InitControlInputs {
        root: root.into(),
        bind_addr: "0.0.0.0:8080".into(),
        bind_addr_configured: true,
        public_url: Some("https://control.example.test".into()),
        legacy_node_addr: None,
        node_listen_addr: None,
        node_public_addr: Some("198.51.100.24:17001".into()),
        systemctl: Some("/tmp/mock-systemctl.sh".into()),
        existing: nothing_exists(),
        reconfigure: false,
        shared_secret_nanos: 0x1234,
        control_key_nanos: 0xabcd,
    }
}

/// The inputs of a run with only the root given: no address, URL or `systemctl` configured.
fn default_inputs(root: &str) -> InitControlInputs {
    InitControlInputs {
        root: root.into(),
        bind_addr: control_bind_addr(None),
        bind_addr_configured: false,
        public_url: None,
        legacy_node_addr: None,
        node_listen_addr: None,
        node_public_addr: None,
        systemctl: None,
        existing: nothing_exists(),
        reconfigure: false,
        shared_secret_nanos: 0x1234,
        control_key_nanos: 0xabcd,
    }
}

#[test]
fn init_control_renders_units_and_enables_services() {
    let root = "/tmp/medium-root";
    let plan = init_control(&inputs(root)).unwrap();
    assert_eq!(plan.layout.control_unit_path, "/tmp/medium-root/etc/systemd/system/medium-control-plane.service");
    assert_eq!(plan.layout.node_unit_path, "/tmp/medium-root/etc/systemd/system/medium-node-agent.service");
    assert!(plan.control_unit.contains("ExecStart=/tmp/medium-root/usr/bin/control-plane"));
    assert!(plan.control_unit.contains("Environment=OVERLAY_CONTROL_BIND_ADDR=0.0.0.0:8080"));
    assert!(plan.control_unit.contains(
        "Environment=OVERLAY_CONTROL_DATABASE_URL=sqlite:///tmp/medium-root/var/lib/medium/control-plane.db"
    ));
    let secret = parse_simple_toml_string(&plan.control_config, "shared_secret").unwrap();
    assert_eq!(secret, "medium-shared-secret-1234");
    assert!(plan.control_unit.contains(&format!("Environment=OVERLAY_SHARED_SECRET={secret}")));
    assert!(plan.control_unit.contains("WorkingDirectory=/tmp/medium-root/var/lib/medium"));
    assert!(!plan.control_unit.contains("medium serve"));
    assert!(!plan.control_unit.contains("MEDIUM_CONTROL_DATABASE_URL"));
    assert!(plan.node_unit.contains(
        "ExecStart=/tmp/medium-root/usr/bin/node-agent --config /tmp/medium-root/etc/medium/node.toml"
    ));
    assert!(plan.node_unit.contains("Environment=OVERLAY_CONTROL_URL=https://control.example.test"));
    assert!(plan.node_unit.contains(&format!("Environment=OVERLAY_SHARED_SECRET={secret}")));
    assert!(!plan.node_unit.contains("{{"));
    assert!(!plan.control_unit.contains("{{"));
    assert!(plan.enable_services);
    assert_eq!(plan.systemctl, "/tmp/mock-systemctl.sh");
    assert_eq!(
        systemd_enable_commands(),
        vec![
            vec!["daemon-reload"],
            vec!["enable", "--now", "medium-control-plane.service"],
            vec!["enable", "--now", "medium-node-agent.service"],
        ]
    );
}

#[test]
fn init_control_creates_expected_paths_and_files() {
    let plan = init_control(&default_inputs("/tmp/r")).unwrap();
    let report = plan.report();
    assert_eq!(report.control_config_path, "/tmp/r/etc/medium/control.toml");
    assert_eq!(report.node_config_path, "/tmp/r/etc/medium/node.toml");
    assert_eq!(report.database_path, "/tmp/r/var/lib/medium/control-plane.db");

    assert!(plan.control_config.contains("127.0.0.1:8080"));
    assert!(plan.control_config.contains(&report.database_path));

    assert!(plan.node_config.contains("node-home"));
    assert!(plan.node_config.contains("svc_home_ssh"));

    let output = init_control_message(&report);
    assert!(output.contains("initialized Medium control"));
    // Invites carry the key as `control_key=`, the form the invite parser reads and the invite
    // tests require; the older `token=` form is not written.
    assert!(output.contains("medium://join?v=1&control=http://127.0.0.1:8080&control_key="));
}

#[test]
fn init_control_refuses_existing_install_without_reconfigure() {
    let first = init_control(&default_inputs("/tmp/r"));
    assert!(first.is_ok());

    let mut again = default_inputs("/tmp/r");
    again.existing = ExistingPaths { control_config: true, node_config: true, database: true, config_dir: true, state_dir: true };
    let error = init_control(&again).unwrap_err();
    assert!(matches!(error, InstallError::AlreadyInitialized));
    assert!(error.message().contains("--reconfigure"));

    again.reconfigure = true;
    let plan = init_control(&again).unwrap();
    assert!(init_control_message(&plan.report()).contains("initialized Medium control"));
}

#[test]
fn init_control_lists_every_address_problem() {
    let mut bad = inputs("/tmp/r");
    bad.public_url = None;
    bad.node_listen_addr = Some("0.0.0.0:17001".into());
    bad.node_public_addr = None;
    let error = init_control(&bad).unwrap_err();
    assert_eq!(
        error.message(),
        "MEDIUM_CONTROL_PUBLIC_URL must be set to the public control URL when MEDIUM_CONTROL_BIND_ADDR uses 0.0.0.0; MEDIUM_NODE_PUBLIC_ADDR must be set when MEDIUM_NODE_LISTEN_ADDR uses 0.0.0.0"
    );
}

#[test]
fn real_hosts_install_binaries_under_usr_bin() {
    assert_eq!(control_plane_binary_path("/"), "/usr/bin/control-plane");
    assert_eq!(node_agent_binary_path("/"), "/usr/bin/node-agent");
    assert_eq!(control_plane_binary_path("/srv/x"), "/srv/x/usr/bin/control-plane");
    let layout = InstallLayout::new("/");
    assert_eq!(layout.config_dir, "/etc/medium");
    assert_eq!(layout.state_dir, "/var/lib/medium");
    assert_eq!(layout.systemd_unit_dir, "/etc/systemd/system");
    assert!(layout.is_bootstrapped(&ExistingPaths { database: true, ..nothing_exists() }));
    assert!(!layout.is_bootstrapped(&nothing_exists()));
}

#[test]
fn host_port_splitting() {
    assert_eq!(split_host_port("0.0.0.0:8080"), Some(("0.0.0.0".into(), "8080".into())));
    assert_eq!(split_host_port("[::1]:17001"), Some(("::1".into(), "17001".into())));
    assert_eq!(split_host_port("::1"), Some((":".into(), "1".into())));
    assert_eq!(split_host_port("nohost"), None);
    assert_eq!(split_host_port("[::1]"), None);
    assert!(is_unsuitable_public_host("localhost"));
    assert!(is_unsuitable_public_host("::"));
    assert!(!is_unsuitable_public_host("198.51.100.24"));
}

#[test]
fn public_control_url_rules() {
    assert_eq!(control_public_url("198.51.100.7:8080", true, None).unwrap(), "http://198.51.100.7:8080");
    assert!(matches!(control_public_url("8080", true, None), Err(ConfigError::BindAddrNeedsHostPort)));
    assert!(matches!(control_public_url("127.0.0.1:8080", true, None), Err(ConfigError::PublicUrlRequired(h)) if h == "127.0.0.1"));
    assert_eq!(control_public_url("127.0.0.1:8080", false, None).unwrap(), "http://127.0.0.1:8080");
    assert_eq!(
        control_public_url("0.0.0.0:8080", true, Some("https://c.example.test".into())).unwrap(),
        "https://c.example.test"
    );
    let error = control_public_url("0.0.0.0:8080", true, Some("not a url".into())).unwrap_err();
    assert!(error.message().starts_with("invalid public control URL: "));
}

#[test]
fn node_address_rules() {
    let legacy = node_addrs(Some("10.0.0.5:17001".into()), Some("x".into()), None).unwrap();
    assert_eq!(legacy.listen_addr, "10.0.0.5:17001");
    assert_eq!(legacy.public_addr, "10.0.0.5:17001");
    let fixed = node_addrs(None, Some("198.51.100.2:17001".into()), None).unwrap();
    assert_eq!(fixed.public_addr, "198.51.100.2:17001");
    let public = node_addrs(None, None, Some("198.51.100.24:17001".into())).unwrap();
    assert_eq!(public.listen_addr, "0.0.0.0:17001");
    assert_eq!(public.public_addr, "198.51.100.24:17001");
    let local = node_addrs(None, None, None).unwrap();
    assert_eq!(local.listen_addr, "127.0.0.1:17001");
    assert_eq!(local.public_addr, "127.0.0.1:17001");
    assert!(matches!(
        node_addrs(None, Some("0.0.0.0:17001".into()), None),
        Err(ConfigError::PublicAddrRequired(h)) if h == "0.0.0.0"
    ));
    assert!(matches!(node_addrs(None, Some("nope".into()), None), Err(ConfigError::ListenAddrNeedsHostPort)));
}

#[test]
fn environment_settings() {
    assert_eq!(env_value(Some("  ".into())), None);
    assert_eq!(env_value(Some(" x ".into())), Some(" x ".into()));
    assert_eq!(env_value(None), None);
    assert_eq!(control_bind_addr(None), "127.0.0.1:8080");
    assert_eq!(control_bind_addr(Some("".into())), "");
    assert_eq!(systemctl_bin(None), "systemctl");
    assert!(should_enable_systemd_services("/", false));
    assert!(!should_enable_systemd_services("/tmp/r", false));
    assert!(should_enable_systemd_services("/tmp/r", true));
}

#[test]
fn generated_files() {
    assert_eq!(make_token("medium-shared-secret", 255), "medium-shared-secret-ff");
    assert_eq!(make_token("p", 0), "p-0");
    assert_eq!(
        control_config_contents("b", "u", "/d.db", "s", "k"),
        "# Generated by medium init-control\nbind_addr = \"b\"\ndatabase_url = \"sqlite:///d.db\"\ncontrol_url = \"u\"\nshared_secret = \"s\"\ncontrol_key = \"k\"\n"
    );
    assert_eq!(
        node_config_contents("node-1", "0.0.0.0:17001", "198.51.100.1:17001", "svc_ssh"),
        "node_id = \"node-1\"\nnode_label = \"node-1\"\nbind_addr = \"0.0.0.0:17001\"\npublic_addr = \"198.51.100.1:17001\"\n\n[[services]]\nid = \"svc_ssh\"\nkind = \"ssh\"\ntarget = \"127.0.0.1:22\"\nuser_name = \"overlay\"\n"
    );
    assert_eq!(render_unit("a {{X}} b {{X}} {{Y}}", &[("{{X}}", "1"), ("{{Y}}", "{{X}}")]), "a 1 b 1 {{X}}");
}

#[test]
fn render_unit_with_empty_needle_fills_every_gap() {
    assert_eq!(render_unit("ab", &[("", "-")]), "-a-b-");
    assert_eq!(render_unit("", &[("", "x")]), "x");
}

#[test]
fn planned_control_config_passes_doctor_and_names_database() {
    let plan = init_control(&inputs("/srv/medium")).unwrap();
    assert_eq!(
        medium::doctor::control_config_line(&Some(plan.control_config.clone())),
        "control-config-valid: ok"
    );
    assert_eq!(
        parse_simple_toml_string(&plan.control_config, "database_url"),
        Some(format!("sqlite://{}", plan.layout.database_path))
    );
    assert_eq!(plan.layout.database_path, "/srv/medium/var/lib/medium/control-plane.db");
}

#[test]
fn rerun_on_written_install_needs_reconfigure() {
    let first = inputs("/srv/m");
    assert!(init_control(&first).is_ok());
    let mut again = inputs("/srv/m");
    again.shared_secret_nanos = 0x9999;
    again.control_key_nanos = 0x8888;
    again.existing = ExistingPaths { control_config: true, node_config: true, database: true, config_dir: true, state_dir: true };
    let refused = init_control(&again).unwrap_err();
    assert!(refused.message().contains("--reconfigure"));
    again.reconfigure = true;
    let plan = init_control(&again).unwrap();
    assert!(plan.invite.ends_with("control_key=medium-control-key-8888"));
}
