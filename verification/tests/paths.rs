use medium::paths::{join_path, AppPaths, Platform};
use medium::state::{display_state_path, legacy_state_path};

#[test]
fn linux_paths_use_xdg_layout() {
    let paths = AppPaths::for_linux_home("/home/tester");

    assert_eq!(paths.app_config_dir, "/home/tester/.medium");
    assert_eq!(paths.state_dir, "/home/tester/.local/share/medium");
    assert_eq!(paths.state_path, "/home/tester/.local/share/medium/state.json");
}

#[test]
fn macos_paths_use_application_support() {
    let paths = AppPaths::for_macos_home("/Users/tester");

    assert_eq!(paths.app_config_dir, "/Users/tester/.medium");
    assert_eq!(
        paths.state_dir,
        "/Users/tester/Library/Application Support/Medium/state"
    );
    assert_eq!(
        paths.state_path,
        "/Users/tester/Library/Application Support/Medium/state/state.json"
    );
}

#[test]
fn ssh_sync_uses_medium_managed_file_name() {
    let paths = AppPaths::from_home("/tmp/example-home", Platform::Linux);
    assert!(paths.overlay_ssh_config_path.ends_with("medium.conf"));
    let paths = AppPaths::from_home("/tmp/example-home", Platform::MacOs);
    assert!(paths.overlay_ssh_config_path.ends_with("medium.conf"));
}

#[test]
fn ssh_paths_live_under_home() {
    let paths = AppPaths::for_linux_home("/home/tester");
    assert_eq!(paths.ssh_dir, "/home/tester/.ssh");
    assert_eq!(paths.ssh_config_path, "/home/tester/.ssh/config");
    assert_eq!(paths.ssh_config_dir, "/home/tester/.ssh/config.d");
    assert_eq!(paths.overlay_ssh_config_path, "/home/tester/.ssh/config.d/medium.conf");
}

#[test]
fn join_path_adds_one_separator() {
    assert_eq!(join_path("/a", "b"), "/a/b");
    assert_eq!(join_path("/a/", "b"), "/a/b");
    assert_eq!(join_path("", "b"), "b");
    assert_eq!(join_path("/a", "/etc"), "/etc");
}

#[test]
fn legacy_state_lives_in_overlay_config() {
    let paths = AppPaths::for_linux_home("/home/tester");
    assert_eq!(legacy_state_path(&paths), "/home/tester/.config/overlay/state.json");
    assert_eq!(display_state_path(&paths, "/x/state.json"), "/x/state.json");
}

#[test]
fn env_home_prefers_medium_then_overlay_then_home() {
    let medium = AppPaths::from_env(Some("/m"), Some("/o"), Some("/h"), Platform::Linux).unwrap();
    assert_eq!(medium.home_dir, "/m");
    let overlay = AppPaths::from_env(None, Some("/o"), Some("/h"), Platform::Linux).unwrap();
    assert_eq!(overlay.home_dir, "/o");
    let home = AppPaths::from_env(None, None, Some("/h"), Platform::Linux).unwrap();
    assert_eq!(home.state_path, "/h/.local/share/medium/state.json");
    assert!(AppPaths::from_env(None, None, None, Platform::Linux).is_none());
}

#[test]
fn home_layout_follows_the_platform() {
    let mac = AppPaths::from_home("/Users/tester", Platform::MacOs);
    assert_eq!(mac.state_path, "/Users/tester/Library/Application Support/Medium/state/state.json");
    let linux = AppPaths::from_home("/home/tester", Platform::Linux);
    assert_eq!(linux.state_path, "/home/tester/.local/share/medium/state.json");
    let env = AppPaths::from_env(None, Some("/Users/o"), None, Platform::MacOs).unwrap();
    assert_eq!(env.state_dir, "/Users/o/Library/Application Support/Medium/state");
}
