use medium::agent_cli::{immediate_output, parse, AgentCommand};

fn run(args: Vec<String>) -> Result<String, String> {
    let command = parse(&args)?;
    immediate_output(&command).ok_or_else(|| "the node agent is not part of this build".to_string())
}

const USAGE: &str = "usage: medium [join <invite> | pair --server <url> --device <name> | devices | ssh sync [--write-main-config] | proxy ssh --device <name> | run --config <path> | info | normalize-label <value>]";

#[test]
fn info_command_returns_summary_output() {
    let output = run(vec!["medium".to_string(), "info".to_string()]).unwrap();
    assert_eq!(output, "Medium CLI");
}

#[test]
fn run_supports_label_normalization() {
    let output = run(vec![
        "medium".to_string(),
        "normalize-label".to_string(),
        "  phone  ".to_string(),
    ])
    .unwrap();
    assert_eq!(output, "phone");
}

#[test]
fn run_requires_config_flag() {
    let error = run(vec!["medium".to_string(), "run".to_string()]).unwrap_err();
    assert!(error.contains(USAGE));
}

#[test]
fn run_rejects_unknown_commands() {
    let error = run(vec!["medium".to_string(), "bad".to_string()]).unwrap_err();
    assert!(error.contains(USAGE));
}

#[test]
fn agent_run_takes_a_config_path() {
    let command = parse(&["medium".to_string(), "run".to_string(), "--config".to_string(), "/etc/medium/node.toml".to_string()]).unwrap();
    assert!(matches!(command, AgentCommand::Run { ref config_path } if config_path == "/etc/medium/node.toml"));
    assert!(immediate_output(&command).is_none());
}
