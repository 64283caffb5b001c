use medium::protocol::{DeviceRecord, SshEndpoint};
use medium::ssh::{
    is_legacy_overlay_managed_config, legacy_overlay_ssh_config_path, legacy_stub, plan_main_include,
    plan_ssh_sync, render_managed_config, ssh_hosts_written, sync_report, SshSyncError,
};
use medium::paths::AppPaths;

fn sample_device() -> DeviceRecord {
    DeviceRecord {
        id: "node-home".into(),
        name: "node-home".into(),
        ssh: Some(SshEndpoint {
            service_id: "svc_home_ssh".into(),
            host: "127.0.0.1".into(),
            port: 2222,
            user: "overlay".into(),
        }),
    }
}

const LEGACY_MANAGED: &str =
    "# Managed by overlay. DO NOT EDIT.\n\nHost node-home\n  ProxyCommand overlay proxy ssh --device node-home\n";

#[test]
fn sync_requires_confirmation_before_touching_main_config() {
    let plan = plan_ssh_sync(None, false, None, &[sample_device()], false);
    let error = plan.main_config.unwrap_err();
    assert_eq!(error, SshSyncError::MissingMainInclude);
    assert!(error.message().contains("re-run with --write-main-config"));
}

#[test]
fn sync_writes_include_and_managed_medium_config() {
    let plan = plan_ssh_sync(None, false, None, &[sample_device()], true);
    let main = plan.main_config.unwrap().unwrap();
    assert!(main.contains("Include ~/.ssh/config.d/medium.conf"));
    assert_eq!(plan.hosts_written, 1);
    assert!(plan.managed_config.contains("Host node-home"));
    assert!(plan.managed_config.contains("ProxyCommand medium proxy ssh --device node-home"));
    assert!(plan.managed_config.contains("User overlay"));
    assert!(!plan.backup_managed);
    assert!(!plan.neutralize_legacy);
}

#[test]
fn sync_migrates_legacy_overlay_managed_state() {
    let main = "Host *\n  ServerAliveInterval 60\nInclude ~/.ssh/config.d/overlay.conf\n";
    let plan = plan_ssh_sync(Some(main), false, Some(LEGACY_MANAGED), &[sample_device()], true);
    let next = plan.main_config.unwrap().unwrap();
    assert_eq!(next, "Host *\n  ServerAliveInterval 60\nInclude ~/.ssh/config.d/medium.conf\n");
    assert!(plan.managed_config.contains("ProxyCommand medium proxy ssh --device node-home"));
    assert!(plan.backup_legacy);
    assert!(plan.neutralize_legacy);
    assert!(!legacy_stub().contains("ProxyCommand overlay proxy ssh --device node-home"));
}

#[test]
fn sync_removes_stale_overlay_include_once_medium_include_exists() {
    let main = "Include ~/.ssh/config.d/overlay.conf\nInclude ~/.ssh/config.d/medium.conf\n";
    let plan = plan_ssh_sync(Some(main), true, Some(LEGACY_MANAGED), &[sample_device()], false);
    let next = plan.main_config.unwrap().unwrap();
    assert_eq!(next, "Include ~/.ssh/config.d/medium.conf\n");
    assert!(plan.backup_managed);
    assert!(plan.neutralize_legacy);
}

#[test]
fn sync_preserves_user_owned_overlay_include() {
    let user_overlay = "Host corp-bastion\n  HostName bastion.example.com\n  User alice\n";
    let plan = plan_ssh_sync(
        Some("Include ~/.ssh/config.d/overlay.conf\n"),
        false,
        Some(user_overlay),
        &[sample_device()],
        true,
    );
    let next = plan.main_config.unwrap().unwrap();
    assert!(next.contains("Include ~/.ssh/config.d/overlay.conf"));
    assert!(next.contains("Include ~/.ssh/config.d/medium.conf"));
    assert!(!plan.neutralize_legacy);
    assert!(!plan.backup_legacy);
}

#[test]
fn sync_creates_backup_before_rewriting_managed_config() {
    let other = DeviceRecord {
        id: "node-lab".into(),
        name: "node-lab".into(),
        ssh: Some(SshEndpoint {
            service_id: "svc_lab_ssh".into(),
            host: "127.0.0.1".into(),
            port: 2201,
            user: "nikita".into(),
        }),
    };
    let plan = plan_ssh_sync(
        Some("Include ~/.ssh/config.d/medium.conf\n"),
        true,
        None,
        &[other],
        false,
    );
    assert!(plan.backup_managed);
    assert!(plan.main_config.unwrap().is_none());
    assert!(plan.managed_config.contains("Host node-lab"));
    assert!(!plan.managed_config.contains("Host node-home"));
    let report = sync_report(false, Some("medium.bak-1".into()), None, plan.hosts_written);
    assert_eq!(report.managed_backup_path.as_deref(), Some("medium.bak-1"));
}

#[test]
fn managed_config_renders_one_block_per_ssh_device() {
    let no_ssh = DeviceRecord { id: "phone".into(), name: "phone".into(), ssh: None };
    let text = render_managed_config(&[sample_device(), no_ssh]);
    assert_eq!(
        text,
        "# Managed by medium. DO NOT EDIT.\n\n# endpoint 127.0.0.1:2222\nHost node-home\n  HostName node-home\n  User overlay\n  ProxyCommand medium proxy ssh --device node-home\n\n"
    );
    assert_eq!(render_managed_config(&[]), "# Managed by medium. DO NOT EDIT.\n\n");
    let devices = vec![sample_device(), DeviceRecord { id: "p".into(), name: "p".into(), ssh: None }];
    assert_eq!(ssh_hosts_written(&devices), 1);
}

#[test]
fn main_config_with_one_medium_include_is_left_alone() {
    let current = "Host a\n  User b\nInclude ~/.ssh/config.d/medium.conf\n";
    assert_eq!(plan_main_include(current, false, false), Ok(None));
    assert_eq!(plan_main_include(current, true, true), Ok(None));
}

#[test]
fn duplicate_medium_includes_are_collapsed() {
    let current = "  Include ~/.ssh/config.d/medium.conf  \nHost a\nInclude ~/.ssh/config.d/medium.conf\n";
    assert_eq!(
        plan_main_include(current, false, false),
        Ok(Some("  Include ~/.ssh/config.d/medium.conf  \nHost a\n".to_string()))
    );
}

#[test]
fn rewritten_main_config_needs_no_second_rewrite() {
    let current = "Host *\nInclude ~/.ssh/config.d/overlay.conf\n";
    let next = plan_main_include(current, true, true).unwrap().unwrap();
    assert_eq!(plan_main_include(&next, false, true), Ok(None));
    assert_eq!(plan_main_include(&next, false, false), Ok(None));
}

#[test]
fn legacy_managed_content_is_recognised() {
    assert!(is_legacy_overlay_managed_config(LEGACY_MANAGED));
    assert!(is_legacy_overlay_managed_config("Host x\n  ProxyCommand overlay proxy ssh --device x\n"));
    assert!(!is_legacy_overlay_managed_config("Host corp\n  User alice\n"));
    let paths = AppPaths::for_linux_home("/home/u");
    assert_eq!(legacy_overlay_ssh_config_path(&paths), "/home/u/.ssh/config.d/overlay.conf");
}

#[test]
fn report_prefers_the_managed_backup() {
    let report = sync_report(true, None, Some("overlay.bak-2".into()), 3);
    assert!(report.main_config_updated);
    assert_eq!(report.hosts_written, 3);
    assert_eq!(report.managed_backup_path.as_deref(), Some("overlay.bak-2"));
    let both = sync_report(false, Some("a".into()), Some("b".into()), 0);
    assert_eq!(both.managed_backup_path.as_deref(), Some("a"));
}

#[test]
fn rewrite_with_carriage_returns_is_stable() {
    let main = "Host a\r\r\nInclude ~/.ssh/config.d/overlay.conf\r\n  User me\r\n";
    let next = plan_main_include(main, true, true).unwrap().unwrap();
    assert_eq!(plan_main_include(&next, false, false).unwrap(), None);
    assert_eq!(plan_main_include(&next, false, true).unwrap(), None);
    let includes = next.lines().filter(|l| l.trim() == "Include ~/.ssh/config.d/medium.conf").count();
    assert_eq!(includes, 1);
}

#[test]
fn second_sync_changes_nothing() {
    let devices = vec![sample_device()];
    let main = "Host existing\n  HostName example.test\nInclude ~/.ssh/config.d/overlay.conf\n";
    let first = plan_ssh_sync(Some(main), false, Some(LEGACY_MANAGED), &devices, true);
    let main_after = first.main_config.unwrap().unwrap();
    assert!(first.neutralize_legacy);
    let legacy_after = legacy_stub();
    let second = plan_ssh_sync(Some(&main_after), true, Some(legacy_after), &devices, false);
    assert_eq!(second.main_config.unwrap(), None);
    assert_eq!(second.managed_config, first.managed_config);
    assert!(second.backup_managed);
    assert!(!second.neutralize_legacy);
    let report = sync_report(false, Some("/h/.ssh/config.d/medium.conf.bak-1".into()), None, second.hosts_written);
    assert!(!report.main_config_updated);
    assert!(report.managed_backup_path.is_some());
}
