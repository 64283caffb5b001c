//! The `doctor` report: one line per thing a working client and control-plane host need.
use vstd::prelude::*;
use crate::install::{
    binary_path_spec, config_dir_spec, installed_binary_path, installed_binary_path_spec, control_config_header, control_config_lines, control_config_spec,
    control_plane_binary_path, layout_spec, lemma_control_config_lines, lemma_control_config_reads_back,
    lemma_control_keys, lemma_database_url_lacks, lemma_token_lacks, node_agent_binary_path, plan_spec,
    state_dir_spec, token_spec, InitControlInputs, InitControlPlan, InstallLayout,
};
use crate::paths::{join_path, lemma_path_join_lacks, path_join};
use crate::paths::{AppPaths, Platform};
use crate::ssh::{
    is_legacy_managed_spec, is_legacy_overlay_managed_config, legacy_include, lemma_count_found,
    lemma_main_include_rewrite_is_stable, lemma_scan_found, main_include, main_include_plan, SshSyncError,
};
use crate::state::{legacy_state_path, legacy_state_path_spec, AppState};
use crate::text::{
    chars_of, eq_chars, extend, extend_str, is_ws, join, join_chars, lacks, lemma_trim_nonblank, lines, lines_of, string_of,
    trim, trim_chars, trim_str,
};
use crate::toml::{
    entry_line, first_value, last_value, lemma_comment_line_reads_nothing, lemma_entry_line_reads_back, lemma_last_value_push,
    lemma_toml_pairs_push, pairs_view, parse_simple_toml_strings, toml_pairs, toml_value,
};

verus! {

/// The report, one line per check.
#[derive(Debug, Clone)]
pub struct DoctorReport {
    pub lines: Vec<String>,
}

/// The plain value of lines.
pub open spec fn lines_view(v: Seq<String>) -> Seq<Seq<char>> {
    v.map_values(|s: String| s@)
}

impl DoctorReport {
    /// The report as text: the lines joined by newlines.
    pub fn render(&self) -> (r: String)
        ensures
            r@ == join(lines_view(self.lines@), seq!['\n']),
    {
        let mut parts: Vec<Vec<char>> = Vec::new();
        let mut i: usize = 0;
        while i < self.lines.len()
            invariant
                i <= self.lines@.len(),
                parts@.len() == i,
                forall|k: int| 0 <= k < i ==> #[trigger] parts@[k]@ == self.lines@[k]@,
            decreases self.lines@.len() - i,
        {
            parts.push(chars_of(self.lines[i].as_str()));
            i = i + 1;
        }
        let nl: Vec<char> = vec!['\n'];
        assert(nl@ =~= seq!['\n']);
        assert(parts@.map_values(|p: Vec<char>| p@) =~= lines_view(self.lines@));
        let out = join_chars(&parts, &nl);
        string_of(&out)
    }
}

/// `label: ok (path)` or `label: missing (path)`.
pub open spec fn path_line_spec(label: Seq<char>, exists: bool, path: Seq<char>) -> Seq<char> {
    label + ": "@ + (if exists { "ok"@ } else { "missing"@ }) + " ("@ + path + ")"@
}

/// Reports whether a path exists (see `path_line_spec`).
pub fn path_line(label: &str, exists: bool, path: &str) -> (r: String)
    ensures
        r@ == path_line_spec(label@, exists, path@),
{
    let mut out = chars_of(label);
    extend_str(&mut out, ": ");
    if exists {
        extend_str(&mut out, "ok");
    } else {
        extend_str(&mut out, "missing");
    }
    extend_str(&mut out, " (");
    extend_str(&mut out, path);
    extend_str(&mut out, ")");
    string_of(&out)
}

/// The join state: the current state file, else the legacy one (named), else missing.
pub open spec fn state_line_spec(current: Option<AppState>, legacy: Option<AppState>, state_path: Seq<char>, legacy_path: Seq<char>) -> Seq<char> {
    match current {
        Some(s) => "join-state: ok (device "@ + s.device_name@ + " via "@ + s.server_url@ + ")"@,
        None => match legacy {
            Some(s) => "join-state: ok (device "@ + s.device_name@ + " via "@ + s.server_url@ + " from legacy state "@
                + legacy_path + ")"@,
            None => "join-state: missing ("@ + state_path + ")"@,
        },
    }
}

/// Reports the join state (see `state_line_spec`); `current` and `legacy` are the states read
/// from the current and the legacy state file, where they exist.
pub fn state_line(paths: &AppPaths, current: &Option<AppState>, legacy: &Option<AppState>) -> (r: String)
    ensures
        r@ == state_line_spec(*current, *legacy, paths.state_path@, legacy_state_path_spec(paths.home_dir@)),
{
    let mut out: Vec<char> = Vec::new();
    match current {
        Some(s) => {
            extend_str(&mut out, "join-state: ok (device ");
            extend_str(&mut out, s.device_name.as_str());
            extend_str(&mut out, " via ");
            extend_str(&mut out, s.server_url.as_str());
            extend_str(&mut out, ")");
        },
        None => match legacy {
            Some(s) => {
                let lp = legacy_state_path(paths);
                extend_str(&mut out, "join-state: ok (device ");
                extend_str(&mut out, s.device_name.as_str());
                extend_str(&mut out, " via ");
                extend_str(&mut out, s.server_url.as_str());
                extend_str(&mut out, " from legacy state ");
                extend_str(&mut out, lp.as_str());
                extend_str(&mut out, ")");
            },
            None => {
                extend_str(&mut out, "join-state: missing (");
                extend_str(&mut out, paths.state_path.as_str());
                extend_str(&mut out, ")");
            },
        },
    }
    string_of(&out)
}

/// A required field is missing when it is undefined or blank.
pub open spec fn field_missing(pairs: Seq<(Seq<char>, Seq<char>)>, name: Seq<char>) -> bool {
    match last_value(pairs, name) {
        Some(v) => trim(v).len() == 0,
        None => true,
    }
}

/// The required fields of the control configuration that are missing, in order.
pub open spec fn missing_control_fields(pairs: Seq<(Seq<char>, Seq<char>)>) -> Seq<Seq<char>> {
    (if field_missing(pairs, "bind_addr"@) { seq!["bind_addr"@] } else { seq![] })
        + (if field_missing(pairs, "database_url"@) { seq!["database_url"@] } else { seq![] })
        + (if field_missing(pairs, "control_url"@) { seq!["control_url"@] } else { seq![] })
        + (if field_missing(pairs, "shared_secret"@) { seq!["shared_secret"@] } else { seq![] })
}

/// Whether the control configuration holds its required fields.
pub open spec fn control_config_line_spec(contents: Option<Seq<char>>) -> Seq<char> {
    match contents {
        None => "control-config-valid: missing"@,
        Some(raw) => {
            let missing = missing_control_fields(toml_pairs(lines(raw)));
            if missing.len() == 0 {
                "control-config-valid: ok"@
            } else {
                "control-config-valid: invalid (missing "@ + join(missing, ", "@) + ")"@
            }
        },
    }
}

/// The plain value of an optional string.
pub open spec fn opt_view(o: Option<String>) -> Option<Seq<char>> {
    match o {
        Some(s) => Some(s@),
        None => None,
    }
}

fn is_field_missing(pairs: &Vec<(String, String)>, name: &str) -> (r: bool)
    ensures
        r == field_missing(pairs_view(pairs@), name@),
{
    match toml_value(pairs, name) {
        Some(v) => trim_str(v.as_str()).len() == 0,
        None => true,
    }
}

/// Checks the control configuration (`None` when it is not a file; see
/// `control_config_line_spec`).
pub fn control_config_line(contents: &Option<String>) -> (r: String)
    ensures
        r@ == control_config_line_spec(opt_view(*contents)),
{
    match contents {
        None => "control-config-valid: missing".to_string(),
        Some(raw) => {
            let pairs = parse_simple_toml_strings(raw.as_str());
            let mut missing: Vec<Vec<char>> = Vec::new();
            if is_field_missing(&pairs, "bind_addr") {
                missing.push(chars_of("bind_addr"));
            }
            if is_field_missing(&pairs, "database_url") {
                missing.push(chars_of("database_url"));
            }
            if is_field_missing(&pairs, "control_url") {
                missing.push(chars_of("control_url"));
            }
            if is_field_missing(&pairs, "shared_secret") {
                missing.push(chars_of("shared_secret"));
            }
            let ghost expected = missing_control_fields(pairs_view(pairs@));
            assert(missing@.map_values(|p: Vec<char>| p@) =~= expected);
            if missing.len() == 0 {
                "control-config-valid: ok".to_string()
            } else {
                let mut out = chars_of("control-config-valid: invalid (missing ");
                let sep = chars_of(", ");
                let listed = join_chars(&missing, &sep);
                extend(&mut out, &listed);
                extend_str(&mut out, ")");
                string_of(&out)
            }
        },
    }
}

/// Whether the node configuration names the node and its bind address.
pub open spec fn node_config_line_spec(contents: Option<Seq<char>>) -> Seq<char> {
    match contents {
        None => "node-config-valid: missing"@,
        Some(raw) => {
            let pairs = toml_pairs(lines(raw));
            if !field_missing(pairs, "node_id"@) && !field_missing(pairs, "bind_addr"@) {
                "node-config-valid: ok"@
            } else {
                "node-config-valid: invalid (missing node_id or bind_addr)"@
            }
        },
    }
}

/// Checks the node configuration (`None` when it is not a file; see `node_config_line_spec`).
pub fn node_config_line(contents: &Option<String>) -> (r: String)
    ensures
        r@ == node_config_line_spec(opt_view(*contents)),
{
    match contents {
        None => "node-config-valid: missing".to_string(),
        Some(raw) => {
            let pairs = parse_simple_toml_strings(raw.as_str());
            if !is_field_missing(&pairs, "node_id") && !is_field_missing(&pairs, "bind_addr") {
                "node-config-valid: ok".to_string()
            } else {
                "node-config-valid: invalid (missing node_id or bind_addr)".to_string()
            }
        },
    }
}

/// The state of one piece of the SSH setup.
#[derive(Debug, Clone, Copy, PartialEq, Eq, Structural)]
pub enum SshStatus {
    Missing,
    Present,
    /// Served by the legacy `overlay.conf`.
    Legacy,
}

/// How a status reads in the report.
pub open spec fn ssh_status_text(s: SshStatus) -> Seq<char> {
    match s {
        SshStatus::Missing => "missing"@,
        SshStatus::Present => "ok"@,
        SshStatus::Legacy => "ok (legacy overlay.conf)"@,
    }
}

impl SshStatus {
    /// The status as it reads in the report.
    pub fn render(&self) -> (r: String)
        ensures
            r@ == ssh_status_text(*self),
    {
        match self {
            SshStatus::Missing => "missing".to_string(),
            SshStatus::Present => "ok".to_string(),
            SshStatus::Legacy => "ok (legacy overlay.conf)".to_string(),
        }
    }
}

/// Some line of `ls`, trimmed, equals `t`.
pub open spec fn has_trimmed_line(ls: Seq<Seq<char>>, t: Seq<char>) -> bool {
    exists|k: int| 0 <= k < ls.len() && #[trigger] trim(ls[k]) == t
}

/// The include line: the medium include wins wherever it stands; the legacy include counts only
/// when the legacy file is managed; a missing main config has neither.
pub open spec fn include_status_spec(main_config: Option<Seq<char>>, legacy_managed: bool) -> SshStatus {
    match main_config {
        None => SshStatus::Missing,
        Some(raw) => if has_trimmed_line(lines(raw), main_include()) {
            SshStatus::Present
        } else if legacy_managed && has_trimmed_line(lines(raw), legacy_include()) {
            SshStatus::Legacy
        } else {
            SshStatus::Missing
        },
    }
}

/// The managed host file: the medium one, else a managed legacy one.
pub open spec fn managed_status_spec(managed_exists: bool, legacy_managed: bool) -> SshStatus {
    if managed_exists {
        SshStatus::Present
    } else if legacy_managed {
        SshStatus::Legacy
    } else {
        SshStatus::Missing
    }
}

fn has_line(ls: &Vec<Vec<char>>, t: &[char], Ghost(all): Ghost<Seq<Seq<char>>>) -> (r: bool)
    requires
        ls@.len() == all.len(),
        forall|k: int| 0 <= k < ls@.len() ==> #[trigger] ls@[k]@ == all[k],
    ensures
        r == has_trimmed_line(all, t@),
{
    let mut i: usize = 0;
    while i < ls.len()
        invariant
            i <= ls@.len(),
            ls@.len() == all.len(),
            forall|k: int| 0 <= k < ls@.len() ==> #[trigger] ls@[k]@ == all[k],
            forall|k: int| 0 <= k < i ==> #[trigger] trim(all[k]) != t@,
        decreases ls@.len() - i,
    {
        let trimmed = trim_chars(&ls[i]);
        if eq_chars(&trimmed, t) {
            assert(trim(all[i as int]) == t@);
            return true;
        }
        i = i + 1;
    }
    false
}

/// The status of the include line (see `include_status_spec`).
pub fn include_status(main_config: &Option<String>, legacy_managed: bool) -> (r: SshStatus)
    ensures
        r == include_status_spec(opt_view(*main_config), legacy_managed),
{
    match main_config {
        None => SshStatus::Missing,
        Some(raw) => {
            let text = chars_of(raw.as_str());
            let ls = lines_of(&text);
            let main = chars_of("Include ~/.ssh/config.d/medium.conf");
            let legacy = chars_of("Include ~/.ssh/config.d/overlay.conf");
            if has_line(&ls, &main, Ghost(lines(raw@))) {
                SshStatus::Present
            } else if legacy_managed && has_line(&ls, &legacy, Ghost(lines(raw@))) {
                SshStatus::Legacy
            } else {
                SshStatus::Missing
            }
        },
    }
}

/// The status of the managed host file (see `managed_status_spec`).
pub fn managed_ssh_status(managed_exists: bool, legacy_managed: bool) -> (r: SshStatus)
    ensures
        r == managed_status_spec(managed_exists, legacy_managed),
{
    if managed_exists {
        SshStatus::Present
    } else if legacy_managed {
        SshStatus::Legacy
    } else {
        SshStatus::Missing
    }
}

/// The two SSH lines of the report.
#[derive(Debug, Clone, Copy)]
pub struct SshInspection {
    pub include_status: SshStatus,
    pub managed_status: SshStatus,
}

impl SshInspection {
    /// `ssh-include: <status>`.
    pub fn include_line(&self) -> (r: String)
        ensures
            r@ == "ssh-include: "@ + ssh_status_text(self.include_status),
    {
        let mut out = chars_of("ssh-include: ");
        let s = self.include_status.render();
        extend_str(&mut out, s.as_str());
        string_of(&out)
    }

    /// `ssh-managed-config: <status>`.
    pub fn managed_line(&self) -> (r: String)
        ensures
            r@ == "ssh-managed-config: "@ + ssh_status_text(self.managed_status),
    {
        let mut out = chars_of("ssh-managed-config: ");
        let s = self.managed_status.render();
        extend_str(&mut out, s.as_str());
        string_of(&out)
    }
}

/// What `systemctl` says of a service: its trimmed output when there is any; `ok` for a silent
/// success; nothing when it could not run or failed silently.
pub open spec fn service_status_spec(ran: bool, stdout: Seq<char>, success: bool) -> Option<Seq<char>> {
    if !ran {
        None
    } else if trim(stdout).len() > 0 {
        Some(trim(stdout))
    } else if !success {
        None
    } else {
        Some("ok"@)
    }
}

/// Reads one `systemctl` answer (see `service_status_spec`).
pub fn service_status(ran: bool, stdout: &str, success: bool) -> (r: Option<String>)
    ensures
        opt_view(r) == service_status_spec(ran, stdout@, success),
{
    if !ran {
        return None;
    }
    let t = trim_str(stdout);
    if t.len() > 0 {
        return Some(string_of(&t));
    }
    if !success {
        return None;
    }
    Some("ok".to_string())
}

/// `service <name>: <enabled>, <active>`, or `unavailable` when either answer is missing.
pub open spec fn service_line_spec(service: Seq<char>, enabled: Option<Seq<char>>, active: Option<Seq<char>>) -> Seq<char> {
    match (enabled, active) {
        (Some(e), Some(a)) => "service "@ + service + ": "@ + e + ", "@ + a,
        _ => "service "@ + service + ": unavailable"@,
    }
}

/// Reports a service (see `service_line_spec`).
pub fn service_line(service: &str, enabled: &Option<String>, active: &Option<String>) -> (r: String)
    ensures
        r@ == service_line_spec(service@, opt_view(*enabled), opt_view(*active)),
{
    let mut out = chars_of("service ");
    extend_str(&mut out, service);
    match (enabled, active) {
        (Some(e), Some(a)) => {
            extend_str(&mut out, ": ");
            extend_str(&mut out, e.as_str());
            extend_str(&mut out, ", ");
            extend_str(&mut out, a.as_str());
        },
        _ => {
            extend_str(&mut out, ": unavailable");
        },
    }
    string_of(&out)
}

/// What the doctor found on disk and from `systemctl`.
#[derive(Debug, Clone)]
pub struct DoctorFacts {
    pub app_config_dir_exists: bool,
    pub state_dir_exists: bool,
    /// The state read from the current state file, if it exists.
    pub current_state: Option<AppState>,
    /// The state read from the legacy state file, if it exists.
    pub legacy_state: Option<AppState>,
    pub control_config_exists: bool,
    /// The control configuration, when it is a file.
    pub control_config: Option<String>,
    pub node_config_exists: bool,
    /// The node configuration, when it is a file.
    pub node_config: Option<String>,
    pub control_db_exists: bool,
    pub control_plane_bin_exists: bool,
    pub node_agent_bin_exists: bool,
    /// The main SSH config, if it exists.
    pub ssh_main_config: Option<String>,
    pub managed_ssh_exists: bool,
    /// The legacy `overlay.conf`, if it exists.
    pub legacy_overlay: Option<String>,
    /// `is-enabled` of the control plane, as read by `service_status`.
    pub control_enabled: Option<String>,
    /// `is-active` of the control plane.
    pub control_active: Option<String>,
    /// `is-enabled` of the node agent.
    pub node_enabled: Option<String>,
    /// `is-active` of the node agent.
    pub node_active: Option<String>,
}

/// Whether the legacy `overlay.conf` is managed by the legacy client.
pub open spec fn legacy_managed_spec(f: DoctorFacts) -> bool {
    match f.legacy_overlay {
        Some(c) => is_legacy_managed_spec(c@),
        None => false,
    }
}

/// The report's lines, in order.
/// Where the doctor looks for the node configuration: the installation's `node.toml`, or on
/// macOS the one in the client's configuration directory.
pub open spec fn node_config_path_spec(paths: AppPaths, root: Seq<char>, platform: Platform) -> Seq<char> {
    match platform {
        Platform::Linux => path_join(config_dir_spec(root), "node.toml"@),
        Platform::MacOs => path_join(paths.app_config_dir@, "node.toml"@),
    }
}

/// The node configuration the doctor checks (see `node_config_path_spec`).
pub fn node_config_path_for(paths: &AppPaths, root: &str, platform: Platform) -> (r: String)
    ensures
        r@ == node_config_path_spec(*paths, root@, platform),
{
    match platform {
        Platform::Linux => InstallLayout::new(root).node_config_path,
        Platform::MacOs => join_path(paths.app_config_dir.as_str(), "node.toml"),
    }
}

pub open spec fn doctor_lines_spec(paths: AppPaths, root: Seq<char>, layout: InstallLayout, f: DoctorFacts, platform: Platform) -> Seq<Seq<char>> {
    let lm = legacy_managed_spec(f);
    seq![
        path_line_spec("config-dir"@, f.app_config_dir_exists, paths.app_config_dir@),
        path_line_spec("state-dir"@, f.state_dir_exists, paths.state_dir@),
        state_line_spec(f.current_state, f.legacy_state, paths.state_path@, legacy_state_path_spec(paths.home_dir@)),
        path_line_spec("control-config"@, f.control_config_exists, layout.control_config_path@),
        control_config_line_spec(opt_view(f.control_config)),
        path_line_spec("node-config"@, f.node_config_exists, node_config_path_spec(paths, root, platform)),
        node_config_line_spec(opt_view(f.node_config)),
        path_line_spec("control-db"@, f.control_db_exists, layout.database_path@),
        path_line_spec("control-plane-bin"@, f.control_plane_bin_exists, installed_binary_path_spec(root, "control-plane"@, platform)),
        path_line_spec("node-agent-bin"@, f.node_agent_bin_exists, installed_binary_path_spec(root, "node-agent"@, platform)),
        "ssh-include: "@ + ssh_status_text(include_status_spec(opt_view(f.ssh_main_config), lm)),
        "ssh-managed-config: "@ + ssh_status_text(managed_status_spec(f.managed_ssh_exists, lm)),
        service_line_spec("medium-control-plane.service"@, opt_view(f.control_enabled), opt_view(f.control_active)),
        service_line_spec("medium-node-agent.service"@, opt_view(f.node_enabled), opt_view(f.node_active)),
    ]
}

/// Builds the report for a client's paths and an installation root from what was found
/// (see `doctor_lines_spec`); the installation's paths are those of `InstallLayout::new(root)`.
pub fn inspect(paths: &AppPaths, root: &str, facts: &DoctorFacts, platform: Platform) -> (r: DoctorReport)
    ensures
        exists|layout: InstallLayout| layout_spec(layout, root@)
            && #[trigger] lines_view(r.lines@) == doctor_lines_spec(*paths, root@, layout, *facts, platform),
{
    let layout = InstallLayout::new(root);
    let legacy_managed = match &facts.legacy_overlay {
        Some(c) => is_legacy_overlay_managed_config(c.as_str()),
        None => false,
    };
    let ssh = SshInspection {
        include_status: include_status(&facts.ssh_main_config, legacy_managed),
        managed_status: managed_ssh_status(facts.managed_ssh_exists, legacy_managed),
    };
    let control_bin = installed_binary_path(root, "control-plane", platform);
    let node_bin = installed_binary_path(root, "node-agent", platform);
    let node_config_path = node_config_path_for(paths, root, platform);
    let mut lines: Vec<String> = Vec::new();
    lines.push(path_line("config-dir", facts.app_config_dir_exists, paths.app_config_dir.as_str()));
    lines.push(path_line("state-dir", facts.state_dir_exists, paths.state_dir.as_str()));
    lines.push(state_line(paths, &facts.current_state, &facts.legacy_state));
    lines.push(path_line("control-config", facts.control_config_exists, layout.control_config_path.as_str()));
    lines.push(control_config_line(&facts.control_config));
    lines.push(path_line("node-config", facts.node_config_exists, node_config_path.as_str()));
    lines.push(node_config_line(&facts.node_config));
    lines.push(path_line("control-db", facts.control_db_exists, layout.database_path.as_str()));
    lines.push(path_line("control-plane-bin", facts.control_plane_bin_exists, control_bin.as_str()));
    lines.push(path_line("node-agent-bin", facts.node_agent_bin_exists, node_bin.as_str()));
    lines.push(ssh.include_line());
    lines.push(ssh.managed_line());
    lines.push(service_line("medium-control-plane.service", &facts.control_enabled, &facts.control_active));
    lines.push(service_line("medium-node-agent.service", &facts.node_enabled, &facts.node_active));
    assert(lines_view(lines@) =~= doctor_lines_spec(*paths, root@, layout, *facts, platform));
    DoctorReport { lines }
}

/// The doctor accepts the control configuration that `init-control` writes: every required field
/// is there and not blank, when no value holds a newline or a `#` and the bind address, control
/// URL and shared secret are not blank.
pub proof fn lemma_doctor_accepts_control_config(bind_addr: Seq<char>, control_url: Seq<char>, database_path: Seq<char>, shared_secret: Seq<char>, control_key: Seq<char>)
    requires
        lacks(bind_addr, '\n'),
        lacks(control_url, '\n'),
        lacks(database_path, '\n'),
        lacks(shared_secret, '\n'),
        lacks(control_key, '\n'),
        lacks(bind_addr, '#'),
        lacks(control_url, '#'),
        lacks(database_path, '#'),
        lacks(shared_secret, '#'),
        lacks(control_key, '#'),
        trim(bind_addr).len() > 0,
        trim(control_url).len() > 0,
        trim(shared_secret).len() > 0,
    ensures
        control_config_line_spec(Some(control_config_spec(bind_addr, control_url, database_path, shared_secret, control_key)))
            == "control-config-valid: ok"@,
{
    lemma_control_config_lines(bind_addr, control_url, database_path, shared_secret, control_key);
    lemma_control_keys();
    lemma_database_url_lacks(database_path, '#');
    reveal_strlit("sqlite://");
    reveal_strlit("# Generated by medium init-control");
    let db = "sqlite://"@ + database_path;
    assert(db[0] == 's');
    assert(!is_ws('s'));
    lemma_trim_nonblank(db);
    let h = control_config_header();
    assert(h =~= seq!['#'] + h.drop_first());
    lemma_comment_line_reads_nothing(h.drop_first(), Seq::<char>::empty());
    let e1 = entry_line("bind_addr"@, bind_addr);
    let e2 = entry_line("database_url"@, db);
    let e3 = entry_line("control_url"@, control_url);
    let e4 = entry_line("shared_secret"@, shared_secret);
    let e5 = entry_line("control_key"@, control_key);
    lemma_entry_line_reads_back("bind_addr"@, bind_addr, Seq::<char>::empty());
    lemma_entry_line_reads_back("database_url"@, db, Seq::<char>::empty());
    lemma_entry_line_reads_back("control_url"@, control_url, Seq::<char>::empty());
    lemma_entry_line_reads_back("shared_secret"@, shared_secret, Seq::<char>::empty());
    lemma_entry_line_reads_back("control_key"@, control_key, Seq::<char>::empty());
    let l0 = Seq::<Seq<char>>::empty().push(h);
    let l1 = l0.push(e1);
    let l2 = l1.push(e2);
    let l3 = l2.push(e3);
    let l4 = l3.push(e4);
    let l5 = l4.push(e5);
    assert(l5 =~= control_config_lines(bind_addr, control_url, database_path, shared_secret, control_key));
    lemma_toml_pairs_push(Seq::<Seq<char>>::empty(), h);
    lemma_toml_pairs_push(l0, e1);
    lemma_toml_pairs_push(l1, e2);
    lemma_toml_pairs_push(l2, e3);
    lemma_toml_pairs_push(l3, e4);
    lemma_toml_pairs_push(l4, e5);
    let p0 = Seq::<(Seq<char>, Seq<char>)>::empty();
    let p1 = p0.push(("bind_addr"@, bind_addr));
    let p2 = p1.push(("database_url"@, db));
    let p3 = p2.push(("control_url"@, control_url));
    let p4 = p3.push(("shared_secret"@, shared_secret));
    let p5 = p4.push(("control_key"@, control_key));
    assert(toml_pairs(l0) =~= p0);
    assert(toml_pairs(l1) =~= p1);
    assert(toml_pairs(l2) =~= p2);
    assert(toml_pairs(l3) =~= p3);
    assert(toml_pairs(l4) =~= p4);
    assert(toml_pairs(l5) =~= p5);
    lemma_last_value_push(p4, ("control_key"@, control_key), "bind_addr"@);
    lemma_last_value_push(p3, ("shared_secret"@, shared_secret), "bind_addr"@);
    lemma_last_value_push(p2, ("control_url"@, control_url), "bind_addr"@);
    lemma_last_value_push(p1, ("database_url"@, db), "bind_addr"@);
    lemma_last_value_push(p0, ("bind_addr"@, bind_addr), "bind_addr"@);
    lemma_last_value_push(p4, ("control_key"@, control_key), "database_url"@);
    lemma_last_value_push(p3, ("shared_secret"@, shared_secret), "database_url"@);
    lemma_last_value_push(p2, ("control_url"@, control_url), "database_url"@);
    lemma_last_value_push(p1, ("database_url"@, db), "database_url"@);
    lemma_last_value_push(p4, ("control_key"@, control_key), "control_url"@);
    lemma_last_value_push(p3, ("shared_secret"@, shared_secret), "control_url"@);
    lemma_last_value_push(p2, ("control_url"@, control_url), "control_url"@);
    lemma_last_value_push(p4, ("control_key"@, control_key), "shared_secret"@);
    lemma_last_value_push(p3, ("shared_secret"@, shared_secret), "shared_secret"@);
    assert(!field_missing(p5, "bind_addr"@));
    assert(!field_missing(p5, "database_url"@));
    assert(!field_missing(p5, "control_url"@));
    assert(!field_missing(p5, "shared_secret"@));
    assert(missing_control_fields(p5) =~= Seq::<Seq<char>>::empty());
}

/// The database path of an installation holds a newline or a `#` only where the root does.
proof fn lemma_database_path_lacks(root: Seq<char>, c: char)
    requires
        lacks(root, c),
        c == '\n' || c == '#',
    ensures
        lacks(path_join(state_dir_spec(root), "control-plane.db"@), c),
{
    reveal_strlit("var");
    reveal_strlit("lib");
    reveal_strlit("medium");
    reveal_strlit("control-plane.db");
    assert(lacks("var"@, c));
    assert(lacks("lib"@, c));
    assert(lacks("medium"@, c));
    assert(lacks("control-plane.db"@, c));
    lemma_path_join_lacks(root, "var"@, c);
    lemma_path_join_lacks(path_join(root, "var"@), "lib"@, c);
    lemma_path_join_lacks(path_join(path_join(root, "var"@), "lib"@), "medium"@, c);
    lemma_path_join_lacks(state_dir_spec(root), "control-plane.db"@, c);
}

/// A secret generated for `init-control` holds neither a newline nor a `#`, and is not blank.
proof fn lemma_generated_secret(prefix: Seq<char>, nanos: nat)
    requires
        prefix.len() > 0,
        !is_ws(prefix[0]),
        lacks(prefix, '\n'),
        lacks(prefix, '#'),
    ensures
        lacks(token_spec(prefix, nanos), '\n'),
        lacks(token_spec(prefix, nanos), '#'),
        trim(token_spec(prefix, nanos)).len() > 0,
{
    lemma_token_lacks(prefix, nanos, '\n');
    lemma_token_lacks(prefix, nanos, '#');
    let t = token_spec(prefix, nanos);
    assert(t[0] == prefix[0]);
    lemma_trim_nonblank(t);
}

/// The control configuration that an `init-control` plan writes passes the doctor, and its
/// database URL names the planned database file — when the root, the bind address and the control
/// URL hold no newline or `#`, and the bind address and control URL are not blank.
pub proof fn lemma_init_control_config_passes_doctor(inputs: InitControlInputs, p: InitControlPlan, url: Seq<char>, addrs: (Seq<char>, Seq<char>), invite: Seq<char>)
    requires
        plan_spec(p, inputs, url, addrs, invite),
        lacks(inputs.root@, '\n'),
        lacks(inputs.root@, '#'),
        lacks(inputs.bind_addr@, '\n'),
        lacks(inputs.bind_addr@, '#'),
        lacks(url, '\n'),
        lacks(url, '#'),
        trim(inputs.bind_addr@).len() > 0,
        trim(url).len() > 0,
    ensures
        control_config_line_spec(Some(p.control_config@)) == "control-config-valid: ok"@,
        first_value(lines(p.control_config@), "database_url"@) == Some("sqlite://"@ + p.layout.database_path@),
{
    reveal_strlit("medium-shared-secret");
    reveal_strlit("medium-control-key");
    let secret = token_spec("medium-shared-secret"@, inputs.shared_secret_nanos as nat);
    let key = token_spec("medium-control-key"@, inputs.control_key_nanos as nat);
    lemma_generated_secret("medium-shared-secret"@, inputs.shared_secret_nanos as nat);
    lemma_generated_secret("medium-control-key"@, inputs.control_key_nanos as nat);
    lemma_database_path_lacks(inputs.root@, '\n');
    lemma_database_path_lacks(inputs.root@, '#');
    let db = p.layout.database_path@;
    lemma_doctor_accepts_control_config(inputs.bind_addr@, url, db, secret, key);
    lemma_control_config_reads_back(inputs.bind_addr@, url, db, secret, key);
}

/// After a sync has planned the main SSH config, the doctor finds the medium include there,
/// whatever it knows of the legacy file: in the rewritten text, or in the unchanged text when no
/// rewrite was needed.
pub proof fn lemma_sync_leaves_include_present(current: Seq<char>, write_main_config: bool, legacy_managed: bool, legacy_now: bool)
    requires
        main_include_plan(current, write_main_config, legacy_managed) is Ok,
    ensures
        match main_include_plan(current, write_main_config, legacy_managed) {
            Ok(Some(next)) => include_status_spec(Some(next), legacy_now) == SshStatus::Present,
            Ok(None) => include_status_spec(Some(current), legacy_now) == SshStatus::Present,
            Err(_) => true,
        },
{
    match main_include_plan(current, write_main_config, legacy_managed) {
        Ok(Some(next)) => {
            lemma_main_include_rewrite_is_stable(current, write_main_config, legacy_managed, next, false, false);
            lemma_count_found(lines(next));
        },
        Ok(None) => {
            lemma_scan_found(lines(current), legacy_managed);
        },
        Err(_) => {},
    }
}

} // verus!
