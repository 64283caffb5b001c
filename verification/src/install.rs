//! Bootstrapping a control-plane host: where the files go, which addresses the services use, and
//! the configuration files and systemd units that are written.
use vstd::prelude::*;
use crate::client_api::{control_url_spec, format_join_invite, invite_text, join_invite_spec, lemma_invite_roundtrip, url_parse_of};
use crate::invite::parse_invite_spec;
use crate::text::{contains, hex_digit, lacks, lemma_find_from_first, lemma_lines_cons, lines, matches_at};
use crate::toml::{
    entry_line, first_value, lemma_comment_line_reads_nothing, lemma_entry_line_reads_back, lemma_first_value_cons,
    plain_key,
};
use crate::invite::{invite_message, InviteError, InviteFailure};
use crate::paths::{join_path, path_join, Platform};
use crate::text::{chars_of, eq_chars, eq_str, extend, extend_str, find, hex, push_hex, split_once, split_once_chars, string_of, trim, trim_str};

verus! {

// ---------------------------------------------------------------------------
// Layout
// ---------------------------------------------------------------------------

/// The files of an installation under a root directory (`/` on a real host).
#[derive(Debug, Clone)]
pub struct InstallLayout {
    pub config_dir: String,
    pub state_dir: String,
    pub systemd_unit_dir: String,
    pub control_config_path: String,
    pub node_config_path: String,
    pub database_path: String,
    pub control_unit_path: String,
    pub node_unit_path: String,
}

/// `root/etc/medium`.
pub open spec fn config_dir_spec(root: Seq<char>) -> Seq<char> {
    path_join(path_join(root, "etc"@), "medium"@)
}

/// `root/var/lib/medium`.
pub open spec fn state_dir_spec(root: Seq<char>) -> Seq<char> {
    path_join(path_join(path_join(root, "var"@), "lib"@), "medium"@)
}

/// `root/etc/systemd/system`.
pub open spec fn unit_dir_spec(root: Seq<char>) -> Seq<char> {
    path_join(path_join(path_join(root, "etc"@), "systemd"@), "system"@)
}

/// The layout under `root`.
pub open spec fn layout_spec(l: InstallLayout, root: Seq<char>) -> bool {
    &&& l.config_dir@ == config_dir_spec(root)
    &&& l.state_dir@ == state_dir_spec(root)
    &&& l.systemd_unit_dir@ == unit_dir_spec(root)
    &&& l.control_config_path@ == path_join(config_dir_spec(root), "control.toml"@)
    &&& l.node_config_path@ == path_join(config_dir_spec(root), "node.toml"@)
    &&& l.database_path@ == path_join(state_dir_spec(root), "control-plane.db"@)
    &&& l.control_unit_path@ == path_join(unit_dir_spec(root), "medium-control-plane.service"@)
    &&& l.node_unit_path@ == path_join(unit_dir_spec(root), "medium-node-agent.service"@)
}

/// Which of the layout's paths already exist.
#[derive(Debug, Clone, Copy)]
pub struct ExistingPaths {
    pub control_config: bool,
    pub node_config: bool,
    pub database: bool,
    pub config_dir: bool,
    pub state_dir: bool,
}

impl InstallLayout {
    /// The layout under `root` (see `layout_spec`).
    pub fn new(root: &str) -> (l: InstallLayout)
        ensures
            layout_spec(l, root@),
    {
        let etc = join_path(root, "etc");
        let config_dir = join_path(etc.as_str(), "medium");
        let var = join_path(root, "var");
        let lib = join_path(var.as_str(), "lib");
        let state_dir = join_path(lib.as_str(), "medium");
        let systemd = join_path(etc.as_str(), "systemd");
        let systemd_unit_dir = join_path(systemd.as_str(), "system");
        InstallLayout {
            control_config_path: join_path(config_dir.as_str(), "control.toml"),
            node_config_path: join_path(config_dir.as_str(), "node.toml"),
            database_path: join_path(state_dir.as_str(), "control-plane.db"),
            control_unit_path: join_path(systemd_unit_dir.as_str(), "medium-control-plane.service"),
            node_unit_path: join_path(systemd_unit_dir.as_str(), "medium-node-agent.service"),
            config_dir,
            state_dir,
            systemd_unit_dir,
        }
    }

    /// An installation exists when any of its configuration, database or directories exists.
    pub fn is_bootstrapped(&self, existing: &ExistingPaths) -> (r: bool)
        ensures
            r == (existing.control_config || existing.node_config || existing.database
                || existing.config_dir || existing.state_dir),
    {
        existing.control_config || existing.node_config || existing.database || existing.config_dir
            || existing.state_dir
    }
}

/// The path of an installed binary: under `/usr/bin` on a real host, under `root/usr/bin`
/// otherwise.
pub open spec fn binary_path_spec(root: Seq<char>, name: Seq<char>) -> Seq<char> {
    if root == "/"@ {
        "/usr/bin/"@ + name
    } else {
        path_join(path_join(path_join(root, "usr"@), "bin"@), name)
    }
}

fn binary_path(root: &str, name: &str) -> (r: String)
    ensures
        r@ == binary_path_spec(root@, name@),
{
    let rc = chars_of(root);
    if eq_str(&rc, "/") {
        let mut out = chars_of("/usr/bin/");
        extend_str(&mut out, name);
        string_of(&out)
    } else {
        let usr = join_path(root, "usr");
        let bin = join_path(usr.as_str(), "bin");
        join_path(bin.as_str(), name)
    }
}

/// Where the control-plane binary is installed.
pub fn control_plane_binary_path(root: &str) -> (r: String)
    ensures
        r@ == binary_path_spec(root@, "control-plane"@),
{
    binary_path(root, "control-plane")
}

/// Where the node-agent binary is installed.
pub fn node_agent_binary_path(root: &str) -> (r: String)
    ensures
        r@ == binary_path_spec(root@, "node-agent"@),
{
    binary_path(root, "node-agent")
}

/// Where a platform installs a binary: the Linux layout (see `binary_path_spec`), or on macOS
/// `/usr/local/bin` (under `root/usr/local/bin` for another root).
pub open spec fn installed_binary_path_spec(root: Seq<char>, name: Seq<char>, platform: Platform) -> Seq<char> {
    match platform {
        Platform::Linux => binary_path_spec(root, name),
        Platform::MacOs => if root == "/"@ {
            "/usr/local/bin/"@ + name
        } else {
            path_join(path_join(path_join(path_join(root, "usr"@), "local"@), "bin"@), name)
        },
    }
}

/// Where a binary is installed on a platform (see `installed_binary_path_spec`).
pub fn installed_binary_path(root: &str, name: &str, platform: Platform) -> (r: String)
    ensures
        r@ == installed_binary_path_spec(root@, name@, platform),
{
    match platform {
        Platform::Linux => binary_path(root, name),
        Platform::MacOs => {
            let rc = chars_of(root);
            if eq_str(&rc, "/") {
                let mut out = chars_of("/usr/local/bin/");
                extend_str(&mut out, name);
                string_of(&out)
            } else {
                let usr = join_path(root, "usr");
                let local = join_path(usr.as_str(), "local");
                let bin = join_path(local.as_str(), "bin");
                join_path(bin.as_str(), name)
            }
        },
    }
}

// ---------------------------------------------------------------------------
// Settings from the environment
// ---------------------------------------------------------------------------

/// A setting counts only when it is not blank.
pub fn env_value(raw: Option<String>) -> (r: Option<String>)
    ensures
        match raw {
            Some(v) => if trim(v@).len() > 0 { r == Some(v) } else { r is None },
            None => r is None,
        },
{
    match raw {
        Some(v) => {
            let t = trim_str(v.as_str());
            if t.len() > 0 {
                Some(v)
            } else {
                None
            }
        },
        None => None,
    }
}

/// The address the control plane binds: the setting, or the local `127.0.0.1:8080`.
pub fn control_bind_addr(raw: Option<String>) -> (r: String)
    ensures
        match raw {
            Some(v) => r@ == v@,
            None => r@ == "127.0.0.1:8080"@,
        },
{
    match raw {
        Some(v) => v,
        None => "127.0.0.1:8080".to_string(),
    }
}

/// The `systemctl` to run: the configured one, or `systemctl`.
pub fn systemctl_bin(configured: Option<String>) -> (r: String)
    ensures
        match configured {
            Some(v) => r@ == v@,
            None => r@ == "systemctl"@,
        },
{
    match configured {
        Some(v) => v,
        None => "systemctl".to_string(),
    }
}

/// Services are enabled on a real host, or wherever a `systemctl` was configured.
pub fn should_enable_systemd_services(root: &str, systemctl_configured: bool) -> (r: bool)
    ensures
        r == (root@ == "/"@ || systemctl_configured),
{
    let rc = chars_of(root);
    eq_str(&rc, "/") || systemctl_configured
}

/// The `systemctl` invocations that enable the services, in order.
pub fn systemd_enable_commands() -> (r: Vec<Vec<&'static str>>)
    ensures
        r@.len() == 3,
        r@[0]@.len() == 1,
        r@[0]@[0]@ == "daemon-reload"@,
        r@[1]@.len() == 3,
        r@[1]@[0]@ == "enable"@,
        r@[1]@[1]@ == "--now"@,
        r@[1]@[2]@ == "medium-control-plane.service"@,
        r@[2]@.len() == 3,
        r@[2]@[0]@ == "enable"@,
        r@[2]@[1]@ == "--now"@,
        r@[2]@[2]@ == "medium-node-agent.service"@,
{
    let mut out: Vec<Vec<&'static str>> = Vec::new();
    let mut reload: Vec<&'static str> = Vec::new();
    reload.push("daemon-reload");
    out.push(reload);
    let mut control: Vec<&'static str> = Vec::new();
    control.push("enable");
    control.push("--now");
    control.push("medium-control-plane.service");
    out.push(control);
    let mut node: Vec<&'static str> = Vec::new();
    node.push("enable");
    node.push("--now");
    node.push("medium-node-agent.service");
    out.push(node);
    out
}

// ---------------------------------------------------------------------------
// Addresses
// ---------------------------------------------------------------------------

/// The last position of `c` in `s`.
pub open spec fn last_index_of(s: Seq<char>, c: char) -> Option<int>
    decreases s.len(),
{
    if s.len() == 0 {
        None
    } else if s.last() == c {
        Some(s.len() - 1)
    } else {
        last_index_of(s.drop_last(), c)
    }
}

/// Splits `host:port`: a bracketed IPv6 host (`[h]:p`) at `]:`, otherwise at the last `:`.
pub open spec fn split_host_port_spec(value: Seq<char>) -> Option<(Seq<char>, Seq<char>)> {
    if value.len() > 0 && value[0] == '[' {
        split_once(value.drop_first(), "]:"@)
    } else {
        match last_index_of(value, ':') {
            Some(i) => Some((value.take(i), value.skip(i + 1))),
            None => None,
        }
    }
}

/// Splits `host:port` (see `split_host_port_spec`).
pub fn split_host_port(value: &str) -> (r: Option<(String, String)>)
    ensures
        match split_host_port_spec(value@) {
            Some(p) => r matches Some(q) && q.0@ == p.0 && q.1@ == p.1,
            None => r is None,
        },
{
    let v = chars_of(value);
    if v.len() > 0 && v[0] == '[' {
        let rest = crate::text::slice_chars(&v, 1, v.len());
        assert(rest@ =~= value@.drop_first());
        let sep = chars_of("]:");
        match split_once_chars(&rest, &sep) {
            Some((h, p)) => Some((string_of(&h), string_of(&p))),
            None => None,
        }
    } else {
        let mut i: usize = v.len();
        assert(v@.take(i as int) =~= v@);
        while i > 0
            invariant
                i <= v@.len(),
                v@ == value@,
                !(value@.len() > 0 && value@[0] == '['),
                last_index_of(v@, ':') == last_index_of(v@.take(i as int), ':'),
            decreases i,
        {
            assert(v@.take(i as int).last() == v@[i - 1]);
            if v[i - 1] == ':' {
                let h = crate::text::slice_chars(&v, 0, i - 1);
                let p = crate::text::slice_chars(&v, i, v.len());
                assert(h@ =~= v@.take(i - 1));
                assert(p@ =~= v@.skip(i as int));
                assert(last_index_of(v@.take(i as int), ':') == Some(i - 1));
                return Some((string_of(&h), string_of(&p)));
            }
            assert(v@.take(i as int).drop_last() =~= v@.take(i - 1));
            i = i - 1;
        }
        None
    }
}

/// Hosts no other machine can reach the service at.
pub open spec fn is_unsuitable_public_host_spec(host: Seq<char>) -> bool {
    host == "0.0.0.0"@ || host == "::"@ || host == "127.0.0.1"@ || host == "::1"@ || host == "localhost"@
}

/// Whether `host` is a wildcard or loopback host (see `is_unsuitable_public_host_spec`).
pub fn is_unsuitable_public_host(host: &str) -> (r: bool)
    ensures
        r == is_unsuitable_public_host_spec(host@),
{
    let h = chars_of(host);
    eq_str(&h, "0.0.0.0") || eq_str(&h, "::") || eq_str(&h, "127.0.0.1") || eq_str(&h, "::1") || eq_str(&h, "localhost")
}

/// Why the addresses of an installation cannot be settled.
#[derive(Debug)]
pub enum ConfigError {
    InvalidPublicControlUrl(InviteError),
    BindAddrNeedsHostPort,
    PublicUrlRequired(String),
    ListenAddrNeedsHostPort,
    PublicAddrRequired(String),
}

/// The plain value of a `ConfigError`.
pub enum ConfigFailure {
    InvalidPublicControlUrl(InviteFailure),
    BindAddrNeedsHostPort,
    PublicUrlRequired(Seq<char>),
    ListenAddrNeedsHostPort,
    PublicAddrRequired(Seq<char>),
}

impl View for ConfigError {
    type V = ConfigFailure;

    open spec fn view(&self) -> ConfigFailure {
        match self {
            ConfigError::InvalidPublicControlUrl(e) => ConfigFailure::InvalidPublicControlUrl(e@),
            ConfigError::BindAddrNeedsHostPort => ConfigFailure::BindAddrNeedsHostPort,
            ConfigError::PublicUrlRequired(h) => ConfigFailure::PublicUrlRequired(h@),
            ConfigError::ListenAddrNeedsHostPort => ConfigFailure::ListenAddrNeedsHostPort,
            ConfigError::PublicAddrRequired(h) => ConfigFailure::PublicAddrRequired(h@),
        }
    }
}

/// The message of each configuration error.
pub open spec fn config_message(f: ConfigFailure) -> Seq<char> {
    match f {
        ConfigFailure::InvalidPublicControlUrl(e) => "invalid public control URL: "@ + invite_message(e),
        ConfigFailure::BindAddrNeedsHostPort => "MEDIUM_CONTROL_BIND_ADDR must include host:port"@,
        ConfigFailure::PublicUrlRequired(h) => "MEDIUM_CONTROL_PUBLIC_URL must be set to the public control URL when MEDIUM_CONTROL_BIND_ADDR uses "@ + h,
        ConfigFailure::ListenAddrNeedsHostPort => "MEDIUM_NODE_LISTEN_ADDR must include host:port"@,
        ConfigFailure::PublicAddrRequired(h) => "MEDIUM_NODE_PUBLIC_ADDR must be set when MEDIUM_NODE_LISTEN_ADDR uses "@ + h,
    }
}

impl ConfigError {
    /// The error as a message.
    pub fn message(&self) -> (m: String)
        ensures
            m@ == config_message(self@),
    {
        let mut out: Vec<char> = Vec::new();
        match self {
            ConfigError::InvalidPublicControlUrl(e) => {
                extend_str(&mut out, "invalid public control URL: ");
                let inner = e.message();
                extend_str(&mut out, inner.as_str());
            },
            ConfigError::BindAddrNeedsHostPort => extend_str(&mut out, "MEDIUM_CONTROL_BIND_ADDR must include host:port"),
            ConfigError::PublicUrlRequired(h) => {
                extend_str(&mut out, "MEDIUM_CONTROL_PUBLIC_URL must be set to the public control URL when MEDIUM_CONTROL_BIND_ADDR uses ");
                extend_str(&mut out, h.as_str());
            },
            ConfigError::ListenAddrNeedsHostPort => extend_str(&mut out, "MEDIUM_NODE_LISTEN_ADDR must include host:port"),
            ConfigError::PublicAddrRequired(h) => {
                extend_str(&mut out, "MEDIUM_NODE_PUBLIC_ADDR must be set when MEDIUM_NODE_LISTEN_ADDR uses ");
                extend_str(&mut out, h.as_str());
            },
        }
        string_of(&out)
    }
}

/// The public control URL: the configured one if a join invite can be written for it;
/// otherwise `http://` and the bind address. A configured bind address on a wildcard or loopback
/// host needs a public URL; the unconfigured default (`127.0.0.1:8080`) sets up a control plane
/// reached on this host.
pub open spec fn control_public_url_spec(bind_addr: Seq<char>, bind_configured: bool, public_url: Option<Seq<char>>) -> Result<Seq<char>, ConfigFailure> {
    match public_url {
        Some(url) => match join_invite_spec(url, "control-key-placeholder"@) {
            Ok(_) => Ok(url),
            Err(e) => Err(ConfigFailure::InvalidPublicControlUrl(e)),
        },
        None => match split_host_port_spec(bind_addr) {
            None => Err(ConfigFailure::BindAddrNeedsHostPort),
            Some(hp) => if bind_configured && is_unsuitable_public_host_spec(hp.0) {
                Err(ConfigFailure::PublicUrlRequired(hp.0))
            } else {
                Ok("http://"@ + bind_addr)
            },
        },
    }
}

/// The plain value of an optional string.
pub open spec fn opt_str(o: Option<String>) -> Option<Seq<char>> {
    match o {
        Some(s) => Some(s@),
        None => None,
    }
}

/// Settles the public control URL (see `control_public_url_spec`).
pub fn control_public_url(bind_addr: &str, bind_configured: bool, public_url: Option<String>) -> (r: Result<String, ConfigError>)
    ensures
        match control_public_url_spec(bind_addr@, bind_configured, opt_str(public_url)) {
            Ok(u) => r matches Ok(s) && s@ == u,
            Err(f) => r matches Err(e) && e@ == f,
        },
{
    match public_url {
        Some(url) => match format_join_invite(url.as_str(), "control-key-placeholder") {
            Ok(_) => Ok(url),
            Err(e) => Err(ConfigError::InvalidPublicControlUrl(e)),
        },
        None => match split_host_port(bind_addr) {
            None => Err(ConfigError::BindAddrNeedsHostPort),
            Some((host, _port)) => {
                if bind_configured && is_unsuitable_public_host(host.as_str()) {
                    Err(ConfigError::PublicUrlRequired(host))
                } else {
                    let mut out = chars_of("http://");
                    extend_str(&mut out, bind_addr);
                    Ok(string_of(&out))
                }
            },
        },
    }
}

/// Where the node agent listens and the address it announces.
#[derive(Debug, Clone)]
pub struct NodeAddrs {
    pub listen_addr: String,
    pub public_addr: String,
}

/// The node's addresses: a legacy bind address serves as both; otherwise the listen address
/// (default `0.0.0.0:17001`) and the configured public address, or, without one, the configured
/// listen address itself unless its host is a wildcard or loopback. With neither configured, the
/// node is set up on this host: `127.0.0.1:17001` for both.
pub open spec fn node_addrs_spec(legacy: Option<Seq<char>>, listen: Option<Seq<char>>, public: Option<Seq<char>>) -> Result<(Seq<char>, Seq<char>), ConfigFailure> {
    match legacy {
        Some(a) => Ok((a, a)),
        None => {
            let l = match listen {
                Some(x) => x,
                None => "0.0.0.0:17001"@,
            };
            match public {
                Some(p) => Ok((l, p)),
                None => if listen is None {
                    Ok(("127.0.0.1:17001"@, "127.0.0.1:17001"@))
                } else { match split_host_port_spec(l) {
                    None => Err(ConfigFailure::ListenAddrNeedsHostPort),
                    Some(hp) => if is_unsuitable_public_host_spec(hp.0) {
                        Err(ConfigFailure::PublicAddrRequired(hp.0))
                    } else {
                        Ok((l, l))
                    },
                } },
            }
        },
    }
}

/// Settles the node's addresses (see `node_addrs_spec`).
pub fn node_addrs(legacy: Option<String>, listen: Option<String>, public: Option<String>) -> (r: Result<NodeAddrs, ConfigError>)
    ensures
        match node_addrs_spec(opt_str(legacy), opt_str(listen), opt_str(public)) {
            Ok(a) => r matches Ok(n) && n.listen_addr@ == a.0 && n.public_addr@ == a.1,
            Err(f) => r matches Err(e) && e@ == f,
        },
{
    match legacy {
        Some(a) => {
            let b = a.clone();
            Ok(NodeAddrs { listen_addr: a, public_addr: b })
        },
        None => {
            let listen_configured = listen.is_some();
            let listen_addr = match listen {
                Some(x) => x,
                None => "0.0.0.0:17001".to_string(),
            };
            match public {
                Some(p) => Ok(NodeAddrs { listen_addr, public_addr: p }),
                None if !listen_configured => Ok(NodeAddrs {
                    listen_addr: "127.0.0.1:17001".to_string(),
                    public_addr: "127.0.0.1:17001".to_string(),
                }),
                None => match split_host_port(listen_addr.as_str()) {
                    None => Err(ConfigError::ListenAddrNeedsHostPort),
                    Some((host, _port)) => {
                        if is_unsuitable_public_host(host.as_str()) {
                            Err(ConfigError::PublicAddrRequired(host))
                        } else {
                            let public_addr = listen_addr.clone();
                            Ok(NodeAddrs { listen_addr, public_addr })
                        }
                    },
                },
            }
        },
    }
}


// ---------------------------------------------------------------------------
// Generated files
// ---------------------------------------------------------------------------

/// A generated secret: the prefix, `-`, and a moment in nanoseconds in lower-case hex.
pub open spec fn token_spec(prefix: Seq<char>, nanos: nat) -> Seq<char> {
    prefix + "-"@ + hex(nanos)
}

/// Writes a generated secret (see `token_spec`) from the current time in nanoseconds.
pub fn make_token(prefix: &str, nanos: u128) -> (r: String)
    ensures
        r@ == token_spec(prefix@, nanos as nat),
{
    let mut out = chars_of(prefix);
    extend_str(&mut out, "-");
    push_hex(&mut out, nanos);
    string_of(&out)
}

/// `key = "value"` and a newline.
pub open spec fn toml_entry(key: Seq<char>, value: Seq<char>) -> Seq<char> {
    key + " = \""@ + value + "\"\n"@
}

fn push_entry(out: &mut Vec<char>, key: &str, value: &str)
    ensures
        final(out)@ == old(out)@ + toml_entry(key@, value@),
{
    extend_str(out, key);
    extend_str(out, " = \"");
    extend_str(out, value);
    extend_str(out, "\"\n");
    assert(final(out)@ =~= old(out)@ + toml_entry(key@, value@));
}

/// The control plane's configuration file.
pub open spec fn control_config_spec(bind_addr: Seq<char>, control_url: Seq<char>, database_path: Seq<char>, shared_secret: Seq<char>, control_key: Seq<char>) -> Seq<char> {
    "# Generated by medium init-control\n"@ + toml_entry("bind_addr"@, bind_addr)
        + toml_entry("database_url"@, "sqlite://"@ + database_path) + toml_entry("control_url"@, control_url)
        + toml_entry("shared_secret"@, shared_secret) + toml_entry("control_key"@, control_key)
}

/// Writes the control plane's configuration file (see `control_config_spec`).
pub fn control_config_contents(bind_addr: &str, control_url: &str, database_path: &str, shared_secret: &str, control_key: &str) -> (r: String)
    ensures
        r@ == control_config_spec(bind_addr@, control_url@, database_path@, shared_secret@, control_key@),
{
    let mut out = chars_of("# Generated by medium init-control\n");
    push_entry(&mut out, "bind_addr", bind_addr);
    let mut db = chars_of("sqlite://");
    extend_str(&mut db, database_path);
    let db_url = string_of(&db);
    push_entry(&mut out, "database_url", db_url.as_str());
    push_entry(&mut out, "control_url", control_url);
    push_entry(&mut out, "shared_secret", shared_secret);
    push_entry(&mut out, "control_key", control_key);
    assert(out@ =~= control_config_spec(bind_addr@, control_url@, database_path@, shared_secret@, control_key@));
    string_of(&out)
}

/// The node agent's configuration file: the node, its addresses, and one SSH service.
pub open spec fn node_config_spec(node_id: Seq<char>, bind_addr: Seq<char>, public_addr: Seq<char>, ssh_service_id: Seq<char>) -> Seq<char> {
    toml_entry("node_id"@, node_id) + toml_entry("node_label"@, node_id) + toml_entry("bind_addr"@, bind_addr)
        + toml_entry("public_addr"@, public_addr) + "\n[[services]]\n"@ + toml_entry("id"@, ssh_service_id)
        + toml_entry("kind"@, "ssh"@) + toml_entry("target"@, "127.0.0.1:22"@) + toml_entry("user_name"@, "overlay"@)
}

/// Writes the node agent's configuration file (see `node_config_spec`).
pub fn node_config_contents(node_id: &str, bind_addr: &str, public_addr: &str, ssh_service_id: &str) -> (r: String)
    ensures
        r@ == node_config_spec(node_id@, bind_addr@, public_addr@, ssh_service_id@),
{
    let mut out: Vec<char> = Vec::new();
    push_entry(&mut out, "node_id", node_id);
    push_entry(&mut out, "node_label", node_id);
    push_entry(&mut out, "bind_addr", bind_addr);
    push_entry(&mut out, "public_addr", public_addr);
    extend_str(&mut out, "\n[[services]]\n");
    push_entry(&mut out, "id", ssh_service_id);
    push_entry(&mut out, "kind", "ssh");
    push_entry(&mut out, "target", "127.0.0.1:22");
    push_entry(&mut out, "user_name", "overlay");
    assert(out@ =~= node_config_spec(node_id@, bind_addr@, public_addr@, ssh_service_id@));
    string_of(&out)
}

/// The systemd unit of the control plane, with `{{..}}` placeholders.
pub open spec fn control_plane_template() -> Seq<char> {
    "[Unit]\nDescription=Medium control plane\nAfter=network-online.target\nWants=network-online.target\n\n[Service]\nType=simple\nExecStart={{CONTROL_PLANE_BIN}}\nEnvironment=OVERLAY_CONTROL_BIND_ADDR={{CONTROL_BIND_ADDR}}\nEnvironment=OVERLAY_CONTROL_DATABASE_URL={{DATABASE_URL}}\nEnvironment=OVERLAY_SHARED_SECRET={{SHARED_SECRET}}\nWorkingDirectory={{STATE_DIR}}\nRestart=on-failure\nRestartSec=2\n\n[Install]\nWantedBy=multi-user.target\n"@
}

/// The systemd unit of the node agent, with `{{..}}` placeholders.
pub open spec fn node_agent_template() -> Seq<char> {
    "[Unit]\nDescription=Medium node agent\nAfter=network-online.target\nWants=network-online.target\n\n[Service]\nType=simple\nExecStart={{NODE_AGENT_BIN}} --config {{NODE_CONFIG_PATH}}\nEnvironment=OVERLAY_CONTROL_URL={{CONTROL_URL}}\nEnvironment=OVERLAY_SHARED_SECRET={{SHARED_SECRET}}\nRestart=on-failure\nRestartSec=2\n\n[Install]\nWantedBy=multi-user.target\n"@
}

/// The template with each replacement applied in turn to the whole text.
pub open spec fn render_unit_spec(template: Seq<char>, reps: Seq<(Seq<char>, Seq<char>)>) -> Seq<char>
    decreases reps.len(),
{
    if reps.len() == 0 {
        template
    } else {
        crate::text::replace(render_unit_spec(template, reps.drop_last()), reps.last().0, reps.last().1)
    }
}

/// The plain value of replacement pairs.
pub open spec fn reps_view(reps: Seq<(&str, &str)>) -> Seq<(Seq<char>, Seq<char>)> {
    reps.map_values(|p: (&str, &str)| (p.0@, p.1@))
}

/// Fills a unit template: each needle, in order, is replaced everywhere (see `render_unit_spec`).
pub fn render_unit(template: &str, replacements: &[(&str, &str)]) -> (r: String)
    ensures
        r@ == render_unit_spec(template@, reps_view(replacements@)),
{
    let mut rendered = chars_of(template);
    let ghost rv = reps_view(replacements@);
    let mut i: usize = 0;
    while i < replacements.len()
        invariant
            i <= replacements@.len(),
            rv == reps_view(replacements@),
            rendered@ == render_unit_spec(template@, rv.take(i as int)),
        decreases replacements@.len() - i,
    {
        let (needle, replacement) = replacements[i];
        let n = chars_of(needle);
        let rep = chars_of(replacement);
        proof {
            assert(rv.take(i + 1).drop_last() =~= rv.take(i as int));
            assert(rv.take(i + 1).last() == (needle@, replacement@));
        }
        rendered = crate::text::replace_chars(&rendered, &n, &rep);
        i = i + 1;
    }
    assert(rv.take(replacements@.len() as int) =~= rv);
    string_of(&rendered)
}

/// The control plane's unit for an installation.
pub open spec fn control_plane_unit_spec(root: Seq<char>, state_dir: Seq<char>, database_path: Seq<char>, bind_addr: Seq<char>, shared_secret: Seq<char>) -> Seq<char> {
    render_unit_spec(control_plane_template(), seq![
        ("{{CONTROL_PLANE_BIN}}"@, binary_path_spec(root, "control-plane"@)),
        ("{{CONTROL_BIND_ADDR}}"@, bind_addr),
        ("{{DATABASE_URL}}"@, "sqlite://"@ + database_path),
        ("{{SHARED_SECRET}}"@, shared_secret),
        ("{{STATE_DIR}}"@, state_dir),
    ])
}

/// The node agent's unit for an installation.
pub open spec fn node_agent_unit_spec(root: Seq<char>, node_config_path: Seq<char>, control_url: Seq<char>, shared_secret: Seq<char>) -> Seq<char> {
    render_unit_spec(node_agent_template(), seq![
        ("{{NODE_AGENT_BIN}}"@, binary_path_spec(root, "node-agent"@)),
        ("{{NODE_CONFIG_PATH}}"@, node_config_path),
        ("{{CONTROL_URL}}"@, control_url),
        ("{{SHARED_SECRET}}"@, shared_secret),
    ])
}

/// Renders the control plane's unit (see `control_plane_unit_spec`).
pub fn render_control_plane_unit(root: &str, layout: &InstallLayout, bind_addr: &str, shared_secret: &str) -> (r: String)
    ensures
        r@ == control_plane_unit_spec(root@, layout.state_dir@, layout.database_path@, bind_addr@, shared_secret@),
{
    let bin = control_plane_binary_path(root);
    let mut db = chars_of("sqlite://");
    extend_str(&mut db, layout.database_path.as_str());
    let db_url = string_of(&db);
    let template = "[Unit]\nDescription=Medium control plane\nAfter=network-online.target\nWants=network-online.target\n\n[Service]\nType=simple\nExecStart={{CONTROL_PLANE_BIN}}\nEnvironment=OVERLAY_CONTROL_BIND_ADDR={{CONTROL_BIND_ADDR}}\nEnvironment=OVERLAY_CONTROL_DATABASE_URL={{DATABASE_URL}}\nEnvironment=OVERLAY_SHARED_SECRET={{SHARED_SECRET}}\nWorkingDirectory={{STATE_DIR}}\nRestart=on-failure\nRestartSec=2\n\n[Install]\nWantedBy=multi-user.target\n";
    let reps: [(&str, &str); 5] = [
        ("{{CONTROL_PLANE_BIN}}", bin.as_str()),
        ("{{CONTROL_BIND_ADDR}}", bind_addr),
        ("{{DATABASE_URL}}", db_url.as_str()),
        ("{{SHARED_SECRET}}", shared_secret),
        ("{{STATE_DIR}}", layout.state_dir.as_str()),
    ];
    proof {
        reveal_strlit("{{CONTROL_PLANE_BIN}}");
        reveal_strlit("{{CONTROL_BIND_ADDR}}");
        reveal_strlit("{{DATABASE_URL}}");
        reveal_strlit("{{SHARED_SECRET}}");
        reveal_strlit("{{STATE_DIR}}");
        assert(reps_view(reps@) =~= seq![
            ("{{CONTROL_PLANE_BIN}}"@, binary_path_spec(root@, "control-plane"@)),
            ("{{CONTROL_BIND_ADDR}}"@, bind_addr@),
            ("{{DATABASE_URL}}"@, "sqlite://"@ + layout.database_path@),
            ("{{SHARED_SECRET}}"@, shared_secret@),
            ("{{STATE_DIR}}"@, layout.state_dir@),
        ]);
    }
    render_unit(template, &reps)
}

/// Renders the node agent's unit (see `node_agent_unit_spec`).
pub fn render_node_agent_unit(root: &str, layout: &InstallLayout, control_url: &str, shared_secret: &str) -> (r: String)
    ensures
        r@ == node_agent_unit_spec(root@, layout.node_config_path@, control_url@, shared_secret@),
{
    let bin = node_agent_binary_path(root);
    let template = "[Unit]\nDescription=Medium node agent\nAfter=network-online.target\nWants=network-online.target\n\n[Service]\nType=simple\nExecStart={{NODE_AGENT_BIN}} --config {{NODE_CONFIG_PATH}}\nEnvironment=OVERLAY_CONTROL_URL={{CONTROL_URL}}\nEnvironment=OVERLAY_SHARED_SECRET={{SHARED_SECRET}}\nRestart=on-failure\nRestartSec=2\n\n[Install]\nWantedBy=multi-user.target\n";
    let reps: [(&str, &str); 4] = [
        ("{{NODE_AGENT_BIN}}", bin.as_str()),
        ("{{NODE_CONFIG_PATH}}", layout.node_config_path.as_str()),
        ("{{CONTROL_URL}}", control_url),
        ("{{SHARED_SECRET}}", shared_secret),
    ];
    proof {
        reveal_strlit("{{NODE_AGENT_BIN}}");
        reveal_strlit("{{NODE_CONFIG_PATH}}");
        reveal_strlit("{{CONTROL_URL}}");
        reveal_strlit("{{SHARED_SECRET}}");
        assert(reps_view(reps@) =~= seq![
            ("{{NODE_AGENT_BIN}}"@, binary_path_spec(root@, "node-agent"@)),
            ("{{NODE_CONFIG_PATH}}"@, layout.node_config_path@),
            ("{{CONTROL_URL}}"@, control_url@),
            ("{{SHARED_SECRET}}"@, shared_secret@),
        ]);
    }
    render_unit(template, &reps)
}


// ---------------------------------------------------------------------------
// Bootstrapping
// ---------------------------------------------------------------------------

/// What `init-control` starts from: the root, the settings (already read, blank ones dropped),
/// which paths exist, and two moments (nanoseconds) for the generated secrets.
#[derive(Debug, Clone)]
pub struct InitControlInputs {
    pub root: String,
    pub bind_addr: String,
    /// Whether the bind address was configured, rather than left at its default.
    pub bind_addr_configured: bool,
    pub public_url: Option<String>,
    pub legacy_node_addr: Option<String>,
    pub node_listen_addr: Option<String>,
    pub node_public_addr: Option<String>,
    pub systemctl: Option<String>,
    pub existing: ExistingPaths,
    pub reconfigure: bool,
    pub shared_secret_nanos: u128,
    pub control_key_nanos: u128,
}

/// Why `init-control` refuses.
#[derive(Debug)]
pub enum InstallError {
    /// The addresses could not be settled; every problem is listed.
    Misconfigured(Vec<ConfigError>),
    /// An installation exists and `--reconfigure` was not given.
    AlreadyInitialized,
    /// No join invite can be written for the control URL.
    Invite(InviteError),
}

/// The messages of a list of configuration errors.
pub open spec fn config_messages(es: Seq<ConfigError>) -> Seq<Seq<char>> {
    es.map_values(|e: ConfigError| config_message(e@))
}

/// The message of an install error.
pub open spec fn install_message(e: InstallError) -> Seq<char> {
    match e {
        InstallError::Misconfigured(es) => crate::text::join(config_messages(es@), "; "@),
        InstallError::AlreadyInitialized => "Medium control is already initialized; rerun with --reconfigure to rewrite bootstrap files"@,
        InstallError::Invite(i) => invite_message(i@),
    }
}

impl InstallError {
    /// The error as a message.
    pub fn message(&self) -> (m: String)
        ensures
            m@ == install_message(*self),
    {
        match self {
            InstallError::Misconfigured(es) => {
                let mut parts: Vec<Vec<char>> = Vec::new();
                let mut i: usize = 0;
                while i < es.len()
                    invariant
                        i <= es@.len(),
                        parts@.len() == i,
                        forall|k: int| 0 <= k < i ==> #[trigger] parts@[k]@ == config_message(es@[k]@),
                    decreases es@.len() - i,
                {
                    let m = es[i].message();
                    parts.push(chars_of(m.as_str()));
                    i = i + 1;
                }
                let sep = chars_of("; ");
                let out = crate::text::join_chars(&parts, &sep);
                assert(parts@.map_values(|p: Vec<char>| p@) =~= config_messages(es@));
                string_of(&out)
            },
            InstallError::AlreadyInitialized => "Medium control is already initialized; rerun with --reconfigure to rewrite bootstrap files".to_string(),
            InstallError::Invite(i) => i.message(),
        }
    }
}

/// Everything `init-control` writes and does.
#[derive(Debug)]
pub struct InitControlPlan {
    pub layout: InstallLayout,
    pub control_config: String,
    pub node_config: String,
    pub control_unit: String,
    pub node_unit: String,
    pub enable_services: bool,
    pub systemctl: String,
    pub invite: String,
}

/// What `init-control` reports.
#[derive(Debug, Clone)]
pub struct InitControlReport {
    pub control_config_path: String,
    pub node_config_path: String,
    pub database_path: String,
    pub invite: String,
}

impl InitControlPlan {
    /// The report of a carried-out plan.
    pub fn report(&self) -> (r: InitControlReport)
        ensures
            r.control_config_path@ == self.layout.control_config_path@,
            r.node_config_path@ == self.layout.node_config_path@,
            r.database_path@ == self.layout.database_path@,
            r.invite@ == self.invite@,
    {
        InitControlReport {
            control_config_path: self.layout.control_config_path.clone(),
            node_config_path: self.layout.node_config_path.clone(),
            database_path: self.layout.database_path.clone(),
            invite: self.invite.clone(),
        }
    }
}

/// The configuration problems, control URL first.
pub open spec fn config_problems(c: Result<Seq<char>, ConfigFailure>, n: Result<(Seq<char>, Seq<char>), ConfigFailure>) -> Seq<ConfigFailure> {
    (match c {
        Err(e) => seq![e],
        Ok(_) => seq![],
    }) + (match n {
        Err(e) => seq![e],
        Ok(_) => seq![],
    })
}

/// The plan carries out the bootstrap of `inputs` with the settled control URL, node addresses
/// and invite.
pub open spec fn plan_spec(p: InitControlPlan, inputs: InitControlInputs, url: Seq<char>, addrs: (Seq<char>, Seq<char>), invite: Seq<char>) -> bool {
    let root = inputs.root@;
    let secret = token_spec("medium-shared-secret"@, inputs.shared_secret_nanos as nat);
    let key = token_spec("medium-control-key"@, inputs.control_key_nanos as nat);
    &&& layout_spec(p.layout, root)
    &&& p.control_config@ == control_config_spec(inputs.bind_addr@, url, p.layout.database_path@, secret, key)
    &&& p.node_config@ == node_config_spec("node-home"@, addrs.0, addrs.1, "svc_home_ssh"@)
    &&& p.control_unit@ == control_plane_unit_spec(root, p.layout.state_dir@, p.layout.database_path@, inputs.bind_addr@, secret)
    &&& p.node_unit@ == node_agent_unit_spec(root, p.layout.node_config_path@, url, secret)
    &&& p.enable_services == (root == "/"@ || inputs.systemctl is Some)
    &&& p.systemctl@ == (match inputs.systemctl {
        Some(s) => s@,
        None => "systemctl"@,
    })
    &&& p.invite@ == invite
}

/// What `init-control` comes to for given inputs.
pub enum InitOutcome {
    /// The addresses cannot be settled.
    Misconfigured,
    /// An installation exists and `--reconfigure` was not given.
    AlreadyInitialized,
    /// No join invite can be written for the control URL.
    InviteRefused(InviteFailure),
    /// A plan for the control URL, the node addresses and the invite.
    Planned(Seq<char>, (Seq<char>, Seq<char>), Seq<char>),
}

/// What `init-control` comes to (see `init_control`).
pub open spec fn init_control_outcome(inputs: InitControlInputs) -> InitOutcome {
    let c = control_public_url_spec(inputs.bind_addr@, inputs.bind_addr_configured, opt_str(inputs.public_url));
    let n = node_addrs_spec(opt_str(inputs.legacy_node_addr), opt_str(inputs.node_listen_addr), opt_str(inputs.node_public_addr));
    let e = inputs.existing;
    let bootstrapped = e.control_config || e.node_config || e.database || e.config_dir || e.state_dir;
    let key = token_spec("medium-control-key"@, inputs.control_key_nanos as nat);
    if c is Err || n is Err {
        InitOutcome::Misconfigured
    } else if bootstrapped && !inputs.reconfigure {
        InitOutcome::AlreadyInitialized
    } else {
        match join_invite_spec(c->Ok_0, key) {
            Err(f) => InitOutcome::InviteRefused(f),
            Ok(inv) => InitOutcome::Planned(c->Ok_0, n->Ok_0, inv),
        }
    }
}

/// Plans `init-control`. It refuses, listing every problem, when the control URL or the node
/// addresses cannot be settled; refuses an existing installation unless `reconfigure`; otherwise
/// it generates the shared secret and control key, writes the join invite for the control URL,
/// and renders the configuration files and units.
pub fn init_control(inputs: &InitControlInputs) -> (r: Result<InitControlPlan, InstallError>)
    ensures
        ({
            let c = control_public_url_spec(inputs.bind_addr@, inputs.bind_addr_configured, opt_str(inputs.public_url));
            let n = node_addrs_spec(opt_str(inputs.legacy_node_addr), opt_str(inputs.node_listen_addr), opt_str(inputs.node_public_addr));
            let e = inputs.existing;
            let bootstrapped = e.control_config || e.node_config || e.database || e.config_dir || e.state_dir;
            let key = token_spec("medium-control-key"@, inputs.control_key_nanos as nat);
            if c is Err || n is Err {
                r matches Err(InstallError::Misconfigured(es))
                    && es@.map_values(|x: ConfigError| x@) == config_problems(c, n)
            } else if bootstrapped && !inputs.reconfigure {
                r matches Err(InstallError::AlreadyInitialized)
            } else {
                match join_invite_spec(c->Ok_0, key) {
                    Err(f) => r matches Err(InstallError::Invite(ie)) && ie@ == f,
                    Ok(inv) => r matches Ok(p) && plan_spec(p, *inputs, c->Ok_0, n->Ok_0, inv),
                }
            }
        }),
        match init_control_outcome(*inputs) {
            InitOutcome::Misconfigured => r matches Err(InstallError::Misconfigured(_)),
            InitOutcome::AlreadyInitialized => r matches Err(InstallError::AlreadyInitialized),
            InitOutcome::InviteRefused(f) => r matches Err(InstallError::Invite(ie)) && ie@ == f,
            InitOutcome::Planned(u, a, inv) => r matches Ok(p) && plan_spec(p, *inputs, u, a, inv),
        },
{
    let control = control_public_url(inputs.bind_addr.as_str(), inputs.bind_addr_configured, inputs.public_url.clone());
    let node = node_addrs(inputs.legacy_node_addr.clone(), inputs.node_listen_addr.clone(), inputs.node_public_addr.clone());
    let (control_url, addrs) = match (control, node) {
        (Ok(u), Ok(a)) => (u, a),
        (Err(ce), Ok(_)) => {
            let mut es: Vec<ConfigError> = Vec::new();
            es.push(ce);
            assert(es@.map_values(|x: ConfigError| x@) =~= config_problems(control_public_url_spec(inputs.bind_addr@, inputs.bind_addr_configured, opt_str(inputs.public_url)), node_addrs_spec(opt_str(inputs.legacy_node_addr), opt_str(inputs.node_listen_addr), opt_str(inputs.node_public_addr))));
            return Err(InstallError::Misconfigured(es));
        },
        (Ok(_), Err(ne)) => {
            let mut es: Vec<ConfigError> = Vec::new();
            es.push(ne);
            assert(es@.map_values(|x: ConfigError| x@) =~= config_problems(control_public_url_spec(inputs.bind_addr@, inputs.bind_addr_configured, opt_str(inputs.public_url)), node_addrs_spec(opt_str(inputs.legacy_node_addr), opt_str(inputs.node_listen_addr), opt_str(inputs.node_public_addr))));
            return Err(InstallError::Misconfigured(es));
        },
        (Err(ce), Err(ne)) => {
            let mut es: Vec<ConfigError> = Vec::new();
            es.push(ce);
            es.push(ne);
            assert(es@.map_values(|x: ConfigError| x@) =~= config_problems(control_public_url_spec(inputs.bind_addr@, inputs.bind_addr_configured, opt_str(inputs.public_url)), node_addrs_spec(opt_str(inputs.legacy_node_addr), opt_str(inputs.node_listen_addr), opt_str(inputs.node_public_addr))));
            return Err(InstallError::Misconfigured(es));
        },
    };
    let layout = InstallLayout::new(inputs.root.as_str());
    if layout.is_bootstrapped(&inputs.existing) && !inputs.reconfigure {
        return Err(InstallError::AlreadyInitialized);
    }
    let shared_secret = make_token("medium-shared-secret", inputs.shared_secret_nanos);
    let control_key = make_token("medium-control-key", inputs.control_key_nanos);
    let invite = match format_join_invite(control_url.as_str(), control_key.as_str()) {
        Ok(i) => i,
        Err(e) => return Err(InstallError::Invite(e)),
    };
    let control_config = control_config_contents(
        inputs.bind_addr.as_str(),
        control_url.as_str(),
        layout.database_path.as_str(),
        shared_secret.as_str(),
        control_key.as_str(),
    );
    let node_config = node_config_contents("node-home", addrs.listen_addr.as_str(), addrs.public_addr.as_str(), "svc_home_ssh");
    let control_unit = render_control_plane_unit(inputs.root.as_str(), &layout, inputs.bind_addr.as_str(), shared_secret.as_str());
    let node_unit = render_node_agent_unit(inputs.root.as_str(), &layout, control_url.as_str(), shared_secret.as_str());
    let enable_services = should_enable_systemd_services(inputs.root.as_str(), inputs.systemctl.is_some());
    let systemctl = systemctl_bin(inputs.systemctl.clone());
    Ok(InitControlPlan { layout, control_config, node_config, control_unit, node_unit, enable_services, systemctl, invite })
}


/// Hexadecimal digits are `0`-`9` and `a`-`f`: no other character occurs in `hex(n)`.
proof fn lemma_hex_lacks(n: nat, c: char)
    requires
        !('0' <= c && c <= '9'),
        !('a' <= c && c <= 'f'),
    ensures
        lacks(hex(n), c),
    decreases n,
{
    if n >= 16 {
        lemma_hex_lacks(n / 16, c);
        let d = (n % 16) as nat;
        assert(hex_digit(d) != c) by {
            if d < 10 {
                assert('0' <= (('0' as u32) + d) as char <= '9');
            } else {
                assert('a' <= (('a' as u32) + (d - 10)) as char <= 'f');
            }
        }
        assert forall|i: int| 0 <= i < hex(n).len() implies #[trigger] hex(n)[i] != c by {
            if i < hex(n / 16).len() {
                assert(hex(n)[i] == hex(n / 16)[i]);
            }
        }
    } else {
        assert(hex_digit(n) != c) by {
            if n < 10 {
                assert('0' <= (('0' as u32) + n) as char <= '9');
            } else {
                assert('a' <= (('a' as u32) + (n - 10)) as char <= 'f');
            }
        }
    }
}

/// A generated secret holds a character only where its prefix does, unless the character is `-`
/// or a hexadecimal digit.
pub proof fn lemma_token_lacks(prefix: Seq<char>, nanos: nat, c: char)
    requires
        lacks(prefix, c),
        c != '-',
        !('0' <= c && c <= '9'),
        !('a' <= c && c <= 'f'),
    ensures
        lacks(token_spec(prefix, nanos), c),
{
    reveal_strlit("-");
    lemma_hex_lacks(nanos, c);
    let t = token_spec(prefix, nanos);
    let head = prefix + "-"@;
    assert(t =~= head + hex(nanos));
    assert forall|i: int| 0 <= i < t.len() implies #[trigger] t[i] != c by {
        if i >= head.len() {
            assert(t[i] == hex(nanos)[i - head.len()]);
        } else if i < prefix.len() {
            assert(t[i] == prefix[i]);
        }
    }
}

/// A generated control key never holds `&`, so it survives in an invite.
pub proof fn lemma_control_key_lacks_amp(nanos: nat)
    ensures
        lacks(token_spec("medium-control-key"@, nanos), '&'),
        token_spec("medium-control-key"@, nanos).len() > 0,
{
    reveal_strlit("medium-control-key");
    lemma_token_lacks("medium-control-key"@, nanos, '&');
}

/// The invite `init-control` reports is one a client can join with: read back, it gives version
/// 1, the control URL as normalised, and the generated control key, whenever the normalised URL
/// is not empty and holds no `&`.
pub proof fn lemma_init_control_invite_joins(control_url: Seq<char>, control_key_nanos: u128)
    requires
        control_url_spec(control_url, url_parse_of(control_url)) matches Ok(u) && u.len() > 0 && lacks(u, '&'),
    ensures
        ({
            let u = control_url_spec(control_url, url_parse_of(control_url))->Ok_0;
            let key = token_spec("medium-control-key"@, control_key_nanos as nat);
            &&& join_invite_spec(control_url, key) == Ok::<Seq<char>, InviteFailure>(invite_text(u, key))
            &&& parse_invite_spec(invite_text(u, key)) == Ok::<(u32, Seq<char>, Seq<char>), InviteFailure>((1u32, u, key))
        }),
{
    let u = control_url_spec(control_url, url_parse_of(control_url))->Ok_0;
    let key = token_spec("medium-control-key"@, control_key_nanos as nat);
    lemma_control_key_lacks_amp(control_key_nanos as nat);
    lemma_invite_roundtrip(u, key);
}

// ---------------------------------------------------------------------------
// Reading back the control configuration
// ---------------------------------------------------------------------------

/// The comment that opens the control configuration.
pub open spec fn control_config_header() -> Seq<char> {
    "# Generated by medium init-control"@
}

/// The lines of the control configuration: its header, then one entry per key.
pub open spec fn control_config_lines(bind_addr: Seq<char>, control_url: Seq<char>, database_path: Seq<char>, shared_secret: Seq<char>, control_key: Seq<char>) -> Seq<Seq<char>> {
    seq![control_config_header()] + (seq![entry_line("bind_addr"@, bind_addr)] + (seq![entry_line("database_url"@, "sqlite://"@ + database_path)]
        + (seq![entry_line("control_url"@, control_url)] + (seq![entry_line("shared_secret"@, shared_secret)]
        + seq![entry_line("control_key"@, control_key)]))))
}

/// An entry line holds no `c` that neither its key nor its value holds, when `c` is none of
/// the characters the line adds.
pub proof fn lemma_entry_line_lacks(key: Seq<char>, value: Seq<char>, c: char)
    requires
        lacks(key, c),
        lacks(value, c),
        c != ' ',
        c != '=',
        c != '"',
    ensures
        lacks(entry_line(key, value), c),
{
    let l = entry_line(key, value);
    assert forall|i: int| 0 <= i < l.len() implies #[trigger] l[i] != c by {
        if i < key.len() {
            assert(l[i] == key[i]);
        } else if i >= key.len() + 4 && i < key.len() + 4 + value.len() {
            assert(l[i] == value[i - key.len() - 4]);
        }
    }
}

/// A database URL holds a newline or a `#` only where its path does.
pub proof fn lemma_database_url_lacks(database_path: Seq<char>, c: char)
    requires
        lacks(database_path, c),
        c == '\n' || c == '#',
    ensures
        lacks("sqlite://"@ + database_path, c),
{
    reveal_strlit("sqlite://");
    let u = "sqlite://"@ + database_path;
    assert forall|i: int| 0 <= i < u.len() implies #[trigger] u[i] != c by {
        if i >= 9 {
            assert(u[i] == database_path[i - 9]);
        }
    }
}

/// The keys the control configuration uses are plain and pairwise different.
pub proof fn lemma_control_keys()
    ensures
        plain_key("bind_addr"@),
        plain_key("database_url"@),
        plain_key("control_url"@),
        plain_key("shared_secret"@),
        plain_key("control_key"@),
        "bind_addr"@ != "database_url"@,
        "bind_addr"@ != "control_url"@,
        "bind_addr"@ != "shared_secret"@,
        "bind_addr"@ != "control_key"@,
        "database_url"@ != "control_url"@,
        "database_url"@ != "shared_secret"@,
        "database_url"@ != "control_key"@,
        "control_url"@ != "shared_secret"@,
        "control_url"@ != "control_key"@,
        "shared_secret"@ != "control_key"@,
{
    reveal_strlit("bind_addr");
    reveal_strlit("database_url");
    reveal_strlit("control_url");
    reveal_strlit("shared_secret");
    reveal_strlit("control_key");
    assert("control_url"@[8] != "control_key"@[8]);
}

/// Splitting the control configuration into lines gives its header and its entries, when no
/// value holds a newline.
pub proof fn lemma_control_config_lines(bind_addr: Seq<char>, control_url: Seq<char>, database_path: Seq<char>, shared_secret: Seq<char>, control_key: Seq<char>)
    requires
        lacks(bind_addr, '\n'),
        lacks(control_url, '\n'),
        lacks(database_path, '\n'),
        lacks(shared_secret, '\n'),
        lacks(control_key, '\n'),
    ensures
        lines(control_config_spec(bind_addr, control_url, database_path, shared_secret, control_key))
            == control_config_lines(bind_addr, control_url, database_path, shared_secret, control_key),
{
    reveal_strlit(" = \"");
    reveal_strlit("\"\n");
    reveal_strlit("# Generated by medium init-control\n");
    reveal_strlit("# Generated by medium init-control");
    lemma_control_keys();
    lemma_database_url_lacks(database_path, '\n');
    let db = "sqlite://"@ + database_path;
    let h = control_config_header();
    let e1 = entry_line("bind_addr"@, bind_addr);
    let e2 = entry_line("database_url"@, db);
    let e3 = entry_line("control_url"@, control_url);
    let e4 = entry_line("shared_secret"@, shared_secret);
    let e5 = entry_line("control_key"@, control_key);
    lemma_entry_line_lacks("bind_addr"@, bind_addr, '\n');
    lemma_entry_line_lacks("database_url"@, db, '\n');
    lemma_entry_line_lacks("control_url"@, control_url, '\n');
    lemma_entry_line_lacks("shared_secret"@, shared_secret, '\n');
    lemma_entry_line_lacks("control_key"@, control_key, '\n');
    assert(lacks(h, '\n'));
    let nl = seq!['\n'];
    assert(" = \""@ =~= seq![' ', '=', ' ', '"']);
    assert("\"\n"@ =~= seq!['"', '\n']);
    assert(control_config_spec(bind_addr, control_url, database_path, shared_secret, control_key)
        =~= h + nl + (e1 + nl + (e2 + nl + (e3 + nl + (e4 + nl + (e5 + nl + Seq::<char>::empty()))))));
    assert(lines(Seq::<char>::empty()) =~= Seq::<Seq<char>>::empty());
    lemma_lines_cons(e5, Seq::<char>::empty());
    lemma_lines_cons(e4, e5 + nl + Seq::<char>::empty());
    lemma_lines_cons(e3, e4 + nl + (e5 + nl + Seq::<char>::empty()));
    lemma_lines_cons(e2, e3 + nl + (e4 + nl + (e5 + nl + Seq::<char>::empty())));
    lemma_lines_cons(e1, e2 + nl + (e3 + nl + (e4 + nl + (e5 + nl + Seq::<char>::empty()))));
    lemma_lines_cons(h, e1 + nl + (e2 + nl + (e3 + nl + (e4 + nl + (e5 + nl + Seq::<char>::empty())))));
    assert(seq![e5] + Seq::<Seq<char>>::empty() =~= seq![e5]);
}

/// What `init-control` writes into the control configuration reads back: looking up each key
/// gives the value written for it, when no value holds a newline or a `#`.
pub proof fn lemma_control_config_reads_back(bind_addr: Seq<char>, control_url: Seq<char>, database_path: Seq<char>, shared_secret: Seq<char>, control_key: Seq<char>)
    requires
        lacks(bind_addr, '\n'),
        lacks(control_url, '\n'),
        lacks(database_path, '\n'),
        lacks(shared_secret, '\n'),
        lacks(control_key, '\n'),
        lacks(bind_addr, '#'),
        lacks(control_url, '#'),
        lacks(database_path, '#'),
        lacks(shared_secret, '#'),
        lacks(control_key, '#'),
    ensures
        ({
            let ls = lines(control_config_spec(bind_addr, control_url, database_path, shared_secret, control_key));
            &&& first_value(ls, "bind_addr"@) == Some(bind_addr)
            &&& first_value(ls, "database_url"@) == Some("sqlite://"@ + database_path)
            &&& first_value(ls, "control_url"@) == Some(control_url)
            &&& first_value(ls, "shared_secret"@) == Some(shared_secret)
            &&& first_value(ls, "control_key"@) == Some(control_key)
        }),
{
    lemma_control_config_lines(bind_addr, control_url, database_path, shared_secret, control_key);
    lemma_control_keys();
    lemma_database_url_lacks(database_path, '#');
    let db = "sqlite://"@ + database_path;
    reveal_strlit("# Generated by medium init-control");
    let h = control_config_header();
    assert(h =~= seq!['#'] + h.drop_first());
    let e1 = entry_line("bind_addr"@, bind_addr);
    let e2 = entry_line("database_url"@, db);
    let e3 = entry_line("control_url"@, control_url);
    let e4 = entry_line("shared_secret"@, shared_secret);
    let e5 = entry_line("control_key"@, control_key);
    let t5 = seq![e5];
    let t4 = seq![e4] + t5;
    let t3 = seq![e3] + t4;
    let t2 = seq![e2] + t3;
    let t1 = seq![e1] + t2;
    let ls = seq![h] + t1;
    assert(ls == control_config_lines(bind_addr, control_url, database_path, shared_secret, control_key));
    assert(t5 =~= seq![e5] + Seq::<Seq<char>>::empty());
    let w1 = "bind_addr"@;
    lemma_comment_line_reads_nothing(h.drop_first(), w1);
    lemma_first_value_cons(h, t1, w1);
    lemma_entry_line_reads_back("bind_addr"@, bind_addr, w1);
    lemma_first_value_cons(e1, t2, w1);
    let w2 = "database_url"@;
    lemma_comment_line_reads_nothing(h.drop_first(), w2);
    lemma_first_value_cons(h, t1, w2);
    lemma_entry_line_reads_back("bind_addr"@, bind_addr, w2);
    lemma_first_value_cons(e1, t2, w2);
    lemma_entry_line_reads_back("database_url"@, db, w2);
    lemma_first_value_cons(e2, t3, w2);
    let w3 = "control_url"@;
    lemma_comment_line_reads_nothing(h.drop_first(), w3);
    lemma_first_value_cons(h, t1, w3);
    lemma_entry_line_reads_back("bind_addr"@, bind_addr, w3);
    lemma_first_value_cons(e1, t2, w3);
    lemma_entry_line_reads_back("database_url"@, db, w3);
    lemma_first_value_cons(e2, t3, w3);
    lemma_entry_line_reads_back("control_url"@, control_url, w3);
    lemma_first_value_cons(e3, t4, w3);
    let w4 = "shared_secret"@;
    lemma_comment_line_reads_nothing(h.drop_first(), w4);
    lemma_first_value_cons(h, t1, w4);
    lemma_entry_line_reads_back("bind_addr"@, bind_addr, w4);
    lemma_first_value_cons(e1, t2, w4);
    lemma_entry_line_reads_back("database_url"@, db, w4);
    lemma_first_value_cons(e2, t3, w4);
    lemma_entry_line_reads_back("control_url"@, control_url, w4);
    lemma_first_value_cons(e3, t4, w4);
    lemma_entry_line_reads_back("shared_secret"@, shared_secret, w4);
    lemma_first_value_cons(e4, t5, w4);
    let w5 = "control_key"@;
    lemma_comment_line_reads_nothing(h.drop_first(), w5);
    lemma_first_value_cons(h, t1, w5);
    lemma_entry_line_reads_back("bind_addr"@, bind_addr, w5);
    lemma_first_value_cons(e1, t2, w5);
    lemma_entry_line_reads_back("database_url"@, db, w5);
    lemma_first_value_cons(e2, t3, w5);
    lemma_entry_line_reads_back("control_url"@, control_url, w5);
    lemma_first_value_cons(e3, t4, w5);
    lemma_entry_line_reads_back("shared_secret"@, shared_secret, w5);
    lemma_first_value_cons(e4, t5, w5);
    lemma_entry_line_reads_back("control_key"@, control_key, w5);
    lemma_first_value_cons(e5, Seq::<Seq<char>>::empty(), w5);
}

/// The same settings, the existing paths and `--reconfigure` aside (the secrets may differ: they
/// come from the time of each run).
pub open spec fn same_settings(a: InitControlInputs, b: InitControlInputs) -> bool {
    &&& a.root@ == b.root@
    &&& a.bind_addr@ == b.bind_addr@
    &&& a.bind_addr_configured == b.bind_addr_configured
    &&& opt_str(a.public_url) == opt_str(b.public_url)
    &&& opt_str(a.legacy_node_addr) == opt_str(b.legacy_node_addr)
    &&& opt_str(a.node_listen_addr) == opt_str(b.node_listen_addr)
    &&& opt_str(a.node_public_addr) == opt_str(b.node_public_addr)
    &&& opt_str(a.systemctl) == opt_str(b.systemctl)
}

/// What carrying out a plan leaves behind: every path of the layout exists.
pub open spec fn all_exist(e: ExistingPaths) -> bool {
    e.control_config && e.node_config && e.database && e.config_dir && e.state_dir
}

/// Running `init-control` again, with the same settings, on the installation a planned run wrote
/// is refused as already initialized (its message names `--reconfigure`) unless `--reconfigure`
/// is given; with it, the run is planned again.
pub proof fn lemma_rerun_needs_reconfigure(first: InitControlInputs, again: InitControlInputs)
    requires
        init_control_outcome(first) is Planned,
        same_settings(first, again),
        all_exist(again.existing),
    ensures
        !again.reconfigure ==> init_control_outcome(again) is AlreadyInitialized,
        again.reconfigure ==> init_control_outcome(again) is Planned,
        contains(install_message(InstallError::AlreadyInitialized), "--reconfigure"@),
{
    reveal_strlit("medium-control-key");
    reveal_strlit("-");
    let key = token_spec("medium-control-key"@, again.control_key_nanos as nat);
    assert(key.len() > 0);
    let m = "Medium control is already initialized; rerun with --reconfigure to rewrite bootstrap files"@;
    let pat = "--reconfigure"@;
    reveal_strlit("Medium control is already initialized; rerun with --reconfigure to rewrite bootstrap files");
    reveal_strlit("--reconfigure");
    assert(m.subrange(50, 63) =~= pat);
    assert(matches_at(m, 50, pat));
    lemma_find_from_first(m, pat, 0, 50);
}

} // verus!
