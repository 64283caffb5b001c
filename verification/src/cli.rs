//! The `medium` command line: its grammar, and the text the commands print.
use vstd::prelude::*;
use crate::app::{normalize_device_label, summary};
use crate::protocol::{candidate_view, candidates_view, is_stable_priority_order, ordered_candidates, CandidateKind, DeviceRecord, SessionOpenGrant};
use crate::install::InitControlReport;
use crate::ssh::SyncReport;
use crate::state::AppState;
use crate::text::{chars_of, dec, eq_chars, eq_str, extend, extend_str, join, join_chars, push_dec, string_of, trim};

verus! {

/// A command of the `medium` tool.
#[derive(Debug, Clone)]
pub enum Command {
    InitControl { reconfigure: bool },
    InitNode { invite: String, reconfigure: bool },
    /// Run the node agent, with the given configuration or the default one.
    Run { config_path: Option<String> },
    Join { invite: String },
    Pair { server_url: String, device_name: String },
    Devices,
    ControlDevices,
    ControlRestart,
    Help,
    SshSync { write_main_config: bool },
    ProxySsh { device_name: String },
    Doctor,
    Info,
    NormalizeLabel { value: String },
}

/// The plain value of a command.
pub enum CommandView {
    InitControl { reconfigure: bool },
    InitNode { invite: Seq<char>, reconfigure: bool },
    Run { config_path: Option<Seq<char>> },
    Join { invite: Seq<char> },
    Pair { server_url: Seq<char>, device_name: Seq<char> },
    Devices,
    ControlDevices,
    ControlRestart,
    Help,
    SshSync { write_main_config: bool },
    ProxySsh { device_name: Seq<char> },
    Doctor,
    Info,
    NormalizeLabel { value: Seq<char> },
}

impl View for Command {
    type V = CommandView;

    open spec fn view(&self) -> CommandView {
        match self {
            Command::InitControl { reconfigure } => CommandView::InitControl { reconfigure: *reconfigure },
            Command::InitNode { invite, reconfigure } => CommandView::InitNode { invite: invite@, reconfigure: *reconfigure },
            Command::Run { config_path } => CommandView::Run {
                config_path: match config_path {
                    Some(p) => Some(p@),
                    None => None,
                },
            },
            Command::Join { invite } => CommandView::Join { invite: invite@ },
            Command::Pair { server_url, device_name } => CommandView::Pair { server_url: server_url@, device_name: device_name@ },
            Command::Devices => CommandView::Devices,
            Command::ControlDevices => CommandView::ControlDevices,
            Command::ControlRestart => CommandView::ControlRestart,
            Command::Help => CommandView::Help,
            Command::SshSync { write_main_config } => CommandView::SshSync { write_main_config: *write_main_config },
            Command::ProxySsh { device_name } => CommandView::ProxySsh { device_name: device_name@ },
            Command::Doctor => CommandView::Doctor,
            Command::Info => CommandView::Info,
            Command::NormalizeLabel { value } => CommandView::NormalizeLabel { value: value@ },
        }
    }
}

/// The grammar of the command line; `a[0]` is the program's name. The first form that fits
/// wins; anything else names an unknown command.
pub open spec fn parse_spec(a: Seq<Seq<char>>) -> Result<CommandView, Seq<char>> {
    let n = a.len();
    if n == 0 {
        Err("missing argv[0]\n\nRun: medium help"@)
    } else if n == 1 {
        Ok(CommandView::Help)
    } else if n == 2 && (a[1] == "help"@ || a[1] == "--help"@ || a[1] == "-h"@) {
        Ok(CommandView::Help)
    } else if n == 2 && a[1] == "init-control"@ {
        Ok(CommandView::InitControl { reconfigure: false })
    } else if n == 3 && a[1] == "init-control"@ && a[2] == "--reconfigure"@ {
        Ok(CommandView::InitControl { reconfigure: true })
    } else if n == 3 && a[1] == "init-node"@ {
        Ok(CommandView::InitNode { invite: a[2], reconfigure: false })
    } else if n == 4 && a[1] == "init-node"@ && a[3] == "--reconfigure"@ {
        Ok(CommandView::InitNode { invite: a[2], reconfigure: true })
    } else if n == 3 && a[1] == "join"@ {
        Ok(CommandView::Join { invite: a[2] })
    } else if n == 6 && a[1] == "pair"@ && a[2] == "--server"@ && a[4] == "--device"@ {
        Ok(CommandView::Pair { server_url: a[3], device_name: a[5] })
    } else if n == 2 && a[1] == "devices"@ {
        Ok(CommandView::Devices)
    } else if n == 3 && a[1] == "control"@ && a[2] == "devices"@ {
        Ok(CommandView::ControlDevices)
    } else if n == 3 && a[1] == "control"@ && a[2] == "restart"@ {
        Ok(CommandView::ControlRestart)
    } else if n == 3 && a[1] == "ssh"@ && a[2] == "sync"@ {
        Ok(CommandView::SshSync { write_main_config: false })
    } else if n == 4 && a[1] == "ssh"@ && a[2] == "sync"@ && a[3] == "--write-main-config"@ {
        Ok(CommandView::SshSync { write_main_config: true })
    } else if n == 5 && a[1] == "proxy"@ && a[2] == "ssh"@ && a[3] == "--device"@ {
        Ok(CommandView::ProxySsh { device_name: a[4] })
    } else if n == 2 && a[1] == "doctor"@ {
        Ok(CommandView::Doctor)
    } else if n == 4 && a[1] == "run"@ && a[2] == "--config"@ {
        Ok(CommandView::Run { config_path: Some(a[3]) })
    } else if n == 2 && a[1] == "run"@ {
        Ok(CommandView::Run { config_path: None })
    } else if n == 2 && a[1] == "info"@ {
        Ok(CommandView::Info)
    } else if n == 3 && a[1] == "normalize-label"@ {
        Ok(CommandView::NormalizeLabel { value: a[2] })
    } else {
        Err("unknown command: "@ + a[1] + "\n\nRun: medium help"@)
    }
}

/// The plain value of the arguments.
pub open spec fn args_view(args: Seq<String>) -> Seq<Seq<char>> {
    args.map_values(|s: String| s@)
}

fn is(arg: &String, lit: &str) -> (r: bool)
    ensures
        r == (arg@ == lit@),
{
    let c = chars_of(arg.as_str());
    eq_str(&c, lit)
}

/// Reads the command line (see `parse_spec`).
pub fn parse(args: &[String]) -> (r: Result<Command, String>)
    ensures
        match parse_spec(args_view(args@)) {
            Ok(c) => r matches Ok(cmd) && cmd@ == c,
            Err(m) => r matches Err(s) && s@ == m,
        },
{
    let ghost a = args_view(args@);
    let n = args.len();
    assert(a.len() == n);
    assert(forall|k: int| 0 <= k < n ==> #[trigger] a[k] == args@[k]@);
    if n == 0 {
        return Err("missing argv[0]\n\nRun: medium help".to_string());
    }
    if n == 1 {
        return Ok(Command::Help);
    }
    let c = &args[1];
    if n == 2 && (is(c, "help") || is(c, "--help") || is(c, "-h")) {
        return Ok(Command::Help);
    }
    if n == 2 && is(c, "init-control") {
        return Ok(Command::InitControl { reconfigure: false });
    }
    if n == 3 && is(c, "init-control") && is(&args[2], "--reconfigure") {
        return Ok(Command::InitControl { reconfigure: true });
    }
    if n == 3 && is(c, "init-node") {
        return Ok(Command::InitNode { invite: args[2].clone(), reconfigure: false });
    }
    if n == 4 && is(c, "init-node") && is(&args[3], "--reconfigure") {
        return Ok(Command::InitNode { invite: args[2].clone(), reconfigure: true });
    }
    if n == 3 && is(c, "join") {
        return Ok(Command::Join { invite: args[2].clone() });
    }
    if n == 6 && is(c, "pair") && is(&args[2], "--server") && is(&args[4], "--device") {
        return Ok(Command::Pair { server_url: args[3].clone(), device_name: args[5].clone() });
    }
    if n == 2 && is(c, "devices") {
        return Ok(Command::Devices);
    }
    if n == 3 && is(c, "control") && is(&args[2], "devices") {
        return Ok(Command::ControlDevices);
    }
    if n == 3 && is(c, "control") && is(&args[2], "restart") {
        return Ok(Command::ControlRestart);
    }
    if n == 3 && is(c, "ssh") && is(&args[2], "sync") {
        return Ok(Command::SshSync { write_main_config: false });
    }
    if n == 4 && is(c, "ssh") && is(&args[2], "sync") && is(&args[3], "--write-main-config") {
        return Ok(Command::SshSync { write_main_config: true });
    }
    if n == 5 && is(c, "proxy") && is(&args[2], "ssh") && is(&args[3], "--device") {
        return Ok(Command::ProxySsh { device_name: args[4].clone() });
    }
    if n == 2 && is(c, "doctor") {
        return Ok(Command::Doctor);
    }
    if n == 4 && is(c, "run") && is(&args[2], "--config") {
        return Ok(Command::Run { config_path: Some(args[3].clone()) });
    }
    if n == 2 && is(c, "run") {
        return Ok(Command::Run { config_path: None });
    }
    if n == 2 && is(c, "info") {
        return Ok(Command::Info);
    }
    if n == 3 && is(c, "normalize-label") {
        return Ok(Command::NormalizeLabel { value: args[2].clone() });
    }
    let mut out = chars_of("unknown command: ");
    extend_str(&mut out, c.as_str());
    extend_str(&mut out, "\n\nRun: medium help");
    Err(string_of(&out))
}

/// The help text.
pub open spec fn help_spec() -> Seq<char> {
    "Medium CLI\n\nUsage:\n  medium <command> [options]\n\nBootstrap:\n  medium init-control [--reconfigure]\n      Initialize a control-plane host.\n  medium init-node <node-invite> [--reconfigure]\n      Initialize a node that publishes services.\n  medium join <invite>\n      Join this client to a Medium network.\n\nClient:\n  medium devices\n      List devices and SSH endpoints visible to this joined client.\n\nControl-plane diagnostics:\n  medium control devices\n      Read the control-plane registry and show registered nodes and services.\n      Run this on a control-plane host, usually with sudo.\n  medium control restart\n      Restart the local systemd relay and control-plane services.\n  medium doctor\n      Inspect local config, state, binaries, and service status.\n\nNode runtime:\n  medium run [--config <path>]\n      Run node-agent using ~/.medium/node.toml by default.\n\nSSH and proxy:\n  medium ssh sync [--write-main-config]\n      Write managed SSH config entries for joined devices.\n  medium proxy ssh --device <name>\n      Open an SSH TCP proxy to a device through Medium session transport.\n\nMaintenance:\n  medium info\n      Print product information.\n  medium normalize-label <value>\n      Normalize a node or device label.\n\nRun `medium help <command>` is not supported yet.\n"@
}

/// The help text (see `help_spec`).
pub fn help_text() -> (s: &'static str)
    ensures
        s@ == help_spec(),
{
    "Medium CLI\n\nUsage:\n  medium <command> [options]\n\nBootstrap:\n  medium init-control [--reconfigure]\n      Initialize a control-plane host.\n  medium init-node <node-invite> [--reconfigure]\n      Initialize a node that publishes services.\n  medium join <invite>\n      Join this client to a Medium network.\n\nClient:\n  medium devices\n      List devices and SSH endpoints visible to this joined client.\n\nControl-plane diagnostics:\n  medium control devices\n      Read the control-plane registry and show registered nodes and services.\n      Run this on a control-plane host, usually with sudo.\n  medium control restart\n      Restart the local systemd relay and control-plane services.\n  medium doctor\n      Inspect local config, state, binaries, and service status.\n\nNode runtime:\n  medium run [--config <path>]\n      Run node-agent using ~/.medium/node.toml by default.\n\nSSH and proxy:\n  medium ssh sync [--write-main-config]\n      Write managed SSH config entries for joined devices.\n  medium proxy ssh --device <name>\n      Open an SSH TCP proxy to a device through Medium session transport.\n\nMaintenance:\n  medium info\n      Print product information.\n  medium normalize-label <value>\n      Normalize a node or device label.\n\nRun `medium help <command>` is not supported yet.\n"
}

/// The output of the commands that need nothing but their arguments: `info`, `help` and
/// `normalize-label`; `None` for the others.
pub open spec fn immediate_output_spec(c: CommandView) -> Option<Seq<char>> {
    match c {
        CommandView::Info => Some("Medium CLI"@),
        CommandView::Help => Some(help_spec()),
        CommandView::NormalizeLabel { value } => Some(trim(value)),
        _ => None,
    }
}

/// The output of a command that needs nothing but its arguments (see `immediate_output_spec`).
pub fn immediate_output(command: &Command) -> (r: Option<String>)
    ensures
        match immediate_output_spec(command@) {
            Some(t) => r matches Some(s) && s@ == t,
            None => r is None,
        },
{
    match command {
        Command::Info => Some(summary().to_string()),
        Command::Help => Some(help_text().to_string()),
        Command::NormalizeLabel { value } => Some(normalize_device_label(value.as_str())),
        _ => None,
    }
}

/// What `medium init-control` prints: where the control configuration went, and the invite.
pub open spec fn init_control_message_spec(report: InitControlReport) -> Seq<char> {
    "initialized Medium control at "@ + report.control_config_path@ + " and generated invite "@ + report.invite@
}

/// The `init-control` report (see `init_control_message_spec`).
pub fn init_control_message(report: &InitControlReport) -> (s: String)
    ensures
        s@ == init_control_message_spec(*report),
{
    let mut out = chars_of("initialized Medium control at ");
    extend_str(&mut out, report.control_config_path.as_str());
    extend_str(&mut out, " and generated invite ");
    extend_str(&mut out, report.invite.as_str());
    string_of(&out)
}

/// What `medium join` prints once the joined state is saved.
pub open spec fn joined_message_spec(state: AppState) -> Seq<char> {
    "joined "@ + state.device_name@ + " via "@ + state.server_url@ + " using invite v"@ + dec(state.invite_version as nat)
}

/// The `join` report (see `joined_message_spec`).
pub fn joined_message(state: &AppState) -> (s: String)
    ensures
        s@ == joined_message_spec(*state),
{
    let mut out = chars_of("joined ");
    extend_str(&mut out, state.device_name.as_str());
    extend_str(&mut out, " via ");
    extend_str(&mut out, state.server_url.as_str());
    extend_str(&mut out, " using invite v");
    push_dec(&mut out, state.invite_version as u64);
    string_of(&out)
}

/// What `medium pair` prints once the paired state is saved.
pub open spec fn paired_message_spec(state: AppState) -> Seq<char> {
    "paired "@ + state.device_name@ + " with "@ + state.server_url@ + " using bootstrap code "@ + state.bootstrap_code@
}

/// The `pair` report (see `paired_message_spec`).
pub fn paired_message(state: &AppState) -> (s: String)
    ensures
        s@ == paired_message_spec(*state),
{
    let mut out = chars_of("paired ");
    extend_str(&mut out, state.device_name.as_str());
    extend_str(&mut out, " with ");
    extend_str(&mut out, state.server_url.as_str());
    extend_str(&mut out, " using bootstrap code ");
    extend_str(&mut out, state.bootstrap_code.as_str());
    string_of(&out)
}

/// What `medium ssh sync` prints: how many hosts went into the managed file, and whether the
/// main SSH config was changed.
pub open spec fn synced_message_spec(report: SyncReport, managed_path: Seq<char>) -> Seq<char> {
    "synced "@ + dec(report.hosts_written as nat) + " SSH hosts into "@ + managed_path
        + if report.main_config_updated { " and updated ~/.ssh/config"@ } else { Seq::<char>::empty() }
}

/// The `ssh sync` report (see `synced_message_spec`).
pub fn synced_message(report: &SyncReport, managed_path: &str) -> (s: String)
    ensures
        s@ == synced_message_spec(*report, managed_path@),
{
    let mut out = chars_of("synced ");
    push_dec(&mut out, report.hosts_written as u64);
    extend_str(&mut out, " SSH hosts into ");
    extend_str(&mut out, managed_path);
    if report.main_config_updated {
        extend_str(&mut out, " and updated ~/.ssh/config");
    }
    assert(out@ =~= synced_message_spec(*report, managed_path@));
    string_of(&out)
}

/// What `medium control restart` prints: the restarted services, comma-separated.
pub open spec fn restarted_message_spec(services: Seq<Seq<char>>) -> Seq<char> {
    "restarted "@ + join(services, ", "@)
}

/// The `control restart` report (see `restarted_message_spec`).
pub fn restarted_message(services: &[String]) -> (s: String)
    ensures
        s@ == restarted_message_spec(services@.map_values(|x: String| x@)),
{
    let mut parts: Vec<Vec<char>> = Vec::new();
    let mut i: usize = 0;
    while i < services.len()
        invariant
            i <= services@.len(),
            parts@.len() == i,
            forall|k: int| 0 <= k < i ==> #[trigger] parts@[k]@ == services@[k]@,
        decreases services@.len() - i,
    {
        parts.push(chars_of(services[i].as_str()));
        i = i + 1;
    }
    let sep = chars_of(", ");
    assert(parts@.map_values(|p: Vec<char>| p@) =~= services@.map_values(|x: String| x@));
    let joined = join_chars(&parts, &sep);
    let mut out = chars_of("restarted ");
    extend(&mut out, &joined);
    string_of(&out)
}

/// The position of the first device called `name`, if any.
pub open spec fn first_named(devices: Seq<DeviceRecord>, name: Seq<char>) -> Option<int>
    decreases devices.len(),
{
    if devices.len() == 0 {
        None
    } else if devices.last().name@ == name {
        match first_named(devices.drop_last(), name) {
            Some(i) => Some(i),
            None => Some(devices.len() - 1),
        }
    } else {
        first_named(devices.drop_last(), name)
    }
}

/// Why `medium proxy ssh` has no SSH service to open for a device name.
#[derive(Debug, Clone, PartialEq, Eq)]
pub enum ProxyTargetError {
    /// No device has that name.
    UnknownDevice(String),
    /// The device has no SSH endpoint.
    NoSshEndpoint(String),
}

impl ProxyTargetError {
    /// The error as the tool prints it.
    pub fn message(&self) -> (s: String)
        ensures
            s@ == match *self {
                ProxyTargetError::UnknownDevice(n) => "unknown device "@ + n@,
                ProxyTargetError::NoSshEndpoint(n) => "device "@ + n@ + " has no SSH endpoint"@,
            },
    {
        match self {
            ProxyTargetError::UnknownDevice(n) => {
                let mut out = chars_of("unknown device ");
                extend_str(&mut out, n.as_str());
                string_of(&out)
            },
            ProxyTargetError::NoSshEndpoint(n) => {
                let mut out = chars_of("device ");
                extend_str(&mut out, n.as_str());
                extend_str(&mut out, " has no SSH endpoint");
                string_of(&out)
            },
        }
    }
}

/// The SSH service to open for the device called `device_name`: that of the first device with the
/// name; an error when no device has it, or when that device has no SSH endpoint.
pub fn ssh_service_for(devices: &[DeviceRecord], device_name: &str) -> (r: Result<String, ProxyTargetError>)
    ensures
        match first_named(devices@, device_name@) {
            None => r matches Err(ProxyTargetError::UnknownDevice(n)) && n@ == device_name@,
            Some(i) => match devices@[i].ssh {
                Some(ssh) => r matches Ok(id) && id@ == ssh.service_id@,
                None => r matches Err(ProxyTargetError::NoSshEndpoint(n)) && n@ == device_name@,
            },
        },
{
    let wanted = chars_of(device_name);
    let mut i: usize = 0;
    while i < devices.len()
        invariant
            i <= devices@.len(),
            wanted@ == device_name@,
            first_named(devices@.take(i as int), device_name@) is None,
        decreases devices@.len() - i,
    {
        proof {
            lemma_first_named_prefix(devices@, device_name@, i as int);
        }
        let name = chars_of(devices[i].name.as_str());
        if eq_chars(&name, &wanted) {
            proof {
                lemma_first_named_found(devices@, device_name@, i as int);
            }
            return match &devices[i].ssh {
                Some(ssh) => Ok(ssh.service_id.clone()),
                None => Err(ProxyTargetError::NoSshEndpoint(device_name.to_owned())),
            };
        }
        i = i + 1;
    }
    assert(devices@.take(devices@.len() as int) =~= devices@);
    Err(ProxyTargetError::UnknownDevice(device_name.to_owned()))
}

/// Extending a prefix with no match by one device: the match, if any, is that device.
proof fn lemma_first_named_prefix(devices: Seq<DeviceRecord>, name: Seq<char>, i: int)
    requires
        0 <= i < devices.len(),
        first_named(devices.take(i), name) is None,
    ensures
        first_named(devices.take(i + 1), name) == (if devices[i].name@ == name { Some(i) } else { None::<int> }),
{
    assert(devices.take(i + 1).drop_last() =~= devices.take(i));
}

/// A match at `i` after a prefix without one is the first match of the whole list.
proof fn lemma_first_named_found(devices: Seq<DeviceRecord>, name: Seq<char>, i: int)
    requires
        0 <= i < devices.len(),
        first_named(devices.take(i + 1), name) == Some(i),
    ensures
        first_named(devices, name) == Some(i),
    decreases devices.len() - i,
{
    if devices.len() == i + 1 {
        assert(devices.take(i + 1) =~= devices);
    } else {
        assert(devices.drop_last().take(i + 1) =~= devices.take(i + 1));
        lemma_first_named_found(devices.drop_last(), name, i);
    }
}

/// One device in the `devices` listing.
pub open spec fn device_line_spec(d: DeviceRecord) -> Seq<char> {
    match d.ssh {
        Some(ssh) => d.name@ + " ssh "@ + ssh.user@ + "@"@ + ssh.host@ + ":"@ + dec(ssh.port as nat),
        None => d.name@ + " no-ssh"@,
    }
}

/// The `devices` listing: one line per device.
pub open spec fn render_devices_spec(devices: Seq<DeviceRecord>) -> Seq<char> {
    join(devices.map_values(|d: DeviceRecord| device_line_spec(d)), seq!['\n'])
}

/// Lists the devices (see `render_devices_spec`).
pub fn render_devices(devices: &[DeviceRecord]) -> (r: String)
    ensures
        r@ == render_devices_spec(devices@),
{
    let mut parts: Vec<Vec<char>> = Vec::new();
    let mut i: usize = 0;
    while i < devices.len()
        invariant
            i <= devices@.len(),
            parts@.len() == i,
            forall|k: int| 0 <= k < i ==> #[trigger] parts@[k]@ == device_line_spec(devices@[k]),
        decreases devices@.len() - i,
    {
        let d = &devices[i];
        let mut line = chars_of(d.name.as_str());
        match &d.ssh {
            Some(ssh) => {
                extend_str(&mut line, " ssh ");
                extend_str(&mut line, ssh.user.as_str());
                extend_str(&mut line, "@");
                extend_str(&mut line, ssh.host.as_str());
                extend_str(&mut line, ":");
                push_dec(&mut line, ssh.port as u64);
            },
            None => {
                extend_str(&mut line, " no-ssh");
            },
        }
        assert(line@ =~= device_line_spec(devices@[i as int]));
        parts.push(line);
        i = i + 1;
    }
    let nl: Vec<char> = vec!['\n'];
    assert(nl@ =~= seq!['\n']);
    assert(parts@.map_values(|p: Vec<char>| p@) =~= devices@.map_values(|d: DeviceRecord| device_line_spec(d)));
    let out = join_chars(&parts, &nl);
    string_of(&out)
}

/// The kinds of ordered candidates.
pub open spec fn kinds_of(o: Seq<(CandidateKind, Seq<char>, u32)>) -> Seq<CandidateKind> {
    o.map_values(|c: (CandidateKind, Seq<char>, u32)| c.0)
}

/// The kinds of the grant's candidates in the order a client tries them (see
/// `ordered_candidates`).
pub fn candidate_order_for_test(grant: &SessionOpenGrant) -> (r: Vec<CandidateKind>)
    ensures
        exists|o: Seq<(CandidateKind, Seq<char>, u32)>, p: Seq<int>|
            #[trigger] is_stable_priority_order(candidates_view(grant.authorization.candidates@), o, p)
            && r@ == kinds_of(o),
{
    let ordered = ordered_candidates(grant);
    let mut out: Vec<CandidateKind> = Vec::new();
    let mut i: usize = 0;
    while i < ordered.len()
        invariant
            i <= ordered@.len(),
            out@.len() == i,
            forall|k: int| 0 <= k < i ==> out@[k] == ordered@[k].kind,
        decreases ordered@.len() - i,
    {
        out.push(ordered[i].kind);
        i = i + 1;
    }
    proof {
        let o = candidates_view(ordered@);
        assert(out@ =~= kinds_of(o));
        let p = choose|p: Seq<int>| #[trigger] is_stable_priority_order(candidates_view(grant.authorization.candidates@), candidates_view(ordered@), p);
        assert(is_stable_priority_order(candidates_view(grant.authorization.candidates@), o, p));
    }
    out
}


/// A published service in the control plane's registry.
#[derive(Debug, Clone)]
pub struct RegistryService {
    pub id: String,
    pub kind: String,
    pub target: String,
    pub label: Option<String>,
}

/// One row of the registry query: a node, and one of its services if it has any. Rows come
/// ordered by node, then by service.
#[derive(Debug, Clone)]
pub struct RegistryRow {
    pub node_id: String,
    pub node_label: String,
    pub last_seen_at: String,
    pub service: Option<RegistryService>,
}

/// The line of a service: its label is shown, quoted, unless it repeats the id.
pub open spec fn service_row_spec(s: RegistryService) -> Seq<char> {
    match s.label {
        Some(l) => if l@ != s.id@ {
            "  "@ + s.id@ + " "@ + s.kind@ + " \""@ + l@ + "\" -> "@ + s.target@
        } else {
            "  "@ + s.id@ + " "@ + s.kind@ + " -> "@ + s.target@
        },
        None => "  "@ + s.id@ + " "@ + s.kind@ + " -> "@ + s.target@,
    }
}

/// The header line of a node.
pub open spec fn node_header_spec(r: RegistryRow) -> Seq<char> {
    r.node_label@ + " ("@ + r.node_id@ + ") last_seen="@ + r.last_seen_at@
}

/// The note for a node without services.
pub open spec fn no_services_line() -> Seq<char> {
    "  no published services"@
}

/// One row: a new node closes the previous one (noting when it had no services) and opens a
/// header; a service adds its line. The state is the lines so far, the current node, and the
/// number of services listed for it.
pub open spec fn registry_step(st: (Seq<Seq<char>>, Seq<char>, nat), r: RegistryRow) -> (Seq<Seq<char>>, Seq<char>, nat) {
    let opened = if r.node_id@ != st.1 {
        let closed = if st.1.len() > 0 && st.2 == 0 { st.0.push(no_services_line()) } else { st.0 };
        (closed.push(node_header_spec(r)), r.node_id@, 0nat)
    } else {
        st
    };
    match r.service {
        Some(s) => (opened.0.push(service_row_spec(s)), opened.1, opened.2 + 1),
        None => opened,
    }
}

/// `registry_step` over the rows in order.
pub open spec fn registry_scan(rows: Seq<RegistryRow>) -> (Seq<Seq<char>>, Seq<char>, nat)
    decreases rows.len(),
{
    if rows.len() == 0 {
        (seq![], seq![], 0)
    } else {
        registry_step(registry_scan(rows.drop_last()), rows.last())
    }
}

/// The registry report: `no registered nodes`, or the lines with a final note when the last
/// node had no services.
pub open spec fn render_registry_spec(rows: Seq<RegistryRow>) -> Seq<char> {
    if rows.len() == 0 {
        "no registered nodes"@
    } else {
        let st = registry_scan(rows);
        let ls = if st.2 == 0 { st.0.push(no_services_line()) } else { st.0 };
        join(ls, seq!['\n'])
    }
}

fn service_row(s: &RegistryService) -> (r: Vec<char>)
    ensures
        r@ == service_row_spec(*s),
{
    let mut out = chars_of("  ");
    extend_str(&mut out, s.id.as_str());
    extend_str(&mut out, " ");
    extend_str(&mut out, s.kind.as_str());
    let labelled = match &s.label {
        Some(l) => {
            let lc = chars_of(l.as_str());
            let ic = chars_of(s.id.as_str());
            if !crate::text::eq_chars(&lc, &ic) {
                extend_str(&mut out, " \"");
                extend(&mut out, &lc);
                extend_str(&mut out, "\" -> ");
                true
            } else {
                false
            }
        },
        None => false,
    };
    if !labelled {
        extend_str(&mut out, " -> ");
    }
    extend_str(&mut out, s.target.as_str());
    assert(out@ =~= service_row_spec(*s));
    out
}

/// Renders the control plane's registry of nodes and services (see `render_registry_spec`).
pub fn render_control_devices(rows: &[RegistryRow]) -> (r: String)
    ensures
        r@ == render_registry_spec(rows@),
{
    if rows.len() == 0 {
        return "no registered nodes".to_string();
    }
    let mut output: Vec<Vec<char>> = Vec::new();
    let mut current_node: Vec<char> = Vec::new();
    let mut service_count: usize = 0;
    let mut i: usize = 0;
    while i < rows.len()
        invariant
            i <= rows@.len(),
            output@.map_values(|p: Vec<char>| p@) == registry_scan(rows@.take(i as int)).0,
            current_node@ == registry_scan(rows@.take(i as int)).1,
            service_count == registry_scan(rows@.take(i as int)).2,
            service_count <= i,
        decreases rows@.len() - i,
    {
        let row = &rows[i];
        proof {
            assert(rows@.take(i + 1).drop_last() =~= rows@.take(i as int));
            assert(rows@.take(i + 1).last() == rows@[i as int]);
        }
        let node = chars_of(row.node_id.as_str());
        if !crate::text::eq_chars(&node, &current_node) {
            if current_node.len() > 0 && service_count == 0 {
                let ghost before = output@.map_values(|p: Vec<char>| p@);
                output.push(chars_of("  no published services"));
                assert(output@.map_values(|p: Vec<char>| p@) =~= before.push(no_services_line()));
            }
            let ghost before = output@.map_values(|p: Vec<char>| p@);
            let mut header = chars_of(row.node_label.as_str());
            extend_str(&mut header, " (");
            extend_str(&mut header, row.node_id.as_str());
            extend_str(&mut header, ") last_seen=");
            extend_str(&mut header, row.last_seen_at.as_str());
            assert(header@ =~= node_header_spec(*row));
            output.push(header);
            assert(output@.map_values(|p: Vec<char>| p@) =~= before.push(node_header_spec(*row)));
            current_node = node;
            service_count = 0;
        }
        match &row.service {
            Some(s) => {
                let ghost before = output@.map_values(|p: Vec<char>| p@);
                output.push(service_row(s));
                assert(output@.map_values(|p: Vec<char>| p@) =~= before.push(service_row_spec(*s)));
                service_count = service_count + 1;
            },
            None => {},
        }
        i = i + 1;
    }
    assert(rows@.take(rows@.len() as int) =~= rows@);
    if service_count == 0 {
        let ghost before = output@.map_values(|p: Vec<char>| p@);
        output.push(chars_of("  no published services"));
        assert(output@.map_values(|p: Vec<char>| p@) =~= before.push(no_services_line()));
    }
    let nl: Vec<char> = vec!['\n'];
    assert(nl@ =~= seq!['\n']);
    let out = join_chars(&output, &nl);
    string_of(&out)
}

/// Asking for help, in any of its spellings, gives the help command, whatever the program is
/// called; so does running the program with no arguments. No other argument count turns a help
/// word into help: `help` followed by anything more is an unknown command.
pub proof fn lemma_help_spellings(prog: Seq<char>, extra: Seq<char>)
    ensures
        parse_spec(seq![prog]) == Ok::<CommandView, Seq<char>>(CommandView::Help),
        parse_spec(seq![prog, "help"@]) == Ok::<CommandView, Seq<char>>(CommandView::Help),
        parse_spec(seq![prog, "--help"@]) == Ok::<CommandView, Seq<char>>(CommandView::Help),
        parse_spec(seq![prog, "-h"@]) == Ok::<CommandView, Seq<char>>(CommandView::Help),
        parse_spec(seq![prog, "help"@, extra]) == Err::<CommandView, Seq<char>>("unknown command: "@ + "help"@ + "\n\nRun: medium help"@),
{
    reveal_strlit("help");
    reveal_strlit("--help");
    reveal_strlit("-h");
    reveal_strlit("init-control");
    reveal_strlit("init-node");
    reveal_strlit("join");
    reveal_strlit("pair");
    reveal_strlit("devices");
    reveal_strlit("control");
    reveal_strlit("ssh");
    reveal_strlit("proxy");
    reveal_strlit("doctor");
    reveal_strlit("run");
    reveal_strlit("info");
    reveal_strlit("normalize-label");
    let a = seq![prog, "help"@, extra];
    assert(a[1] == "help"@);
    assert("help"@ != "init-control"@ && "help"@ != "init-node"@ && "help"@ != "join"@ && "help"@ != "control"@
        && "help"@ != "ssh"@ && "help"@ != "proxy"@ && "help"@ != "normalize-label"@) by {
        assert("help"@.len() != "init-control"@.len());
        assert("help"@.len() != "init-node"@.len());
        assert("help"@[0] != "join"@[0]);
        assert("help"@.len() != "control"@.len());
        assert("help"@.len() != "ssh"@.len());
        assert("help"@.len() != "proxy"@.len());
        assert("help"@.len() != "normalize-label"@.len());
    }
}

} // verus!
