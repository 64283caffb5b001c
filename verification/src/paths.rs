//! Where a client keeps its configuration, state and SSH files under a home directory.
use vstd::prelude::*;
use crate::text::{chars_of, extend_str, lacks, string_of};

verus! {

/// `base` joined with the relative path `comp`, as `Path::join` does: a separator is added unless
/// `base` is empty or already ends with one; an absolute `comp` replaces `base`.
pub open spec fn path_join(base: Seq<char>, comp: Seq<char>) -> Seq<char> {
    if comp.len() > 0 && comp[0] == '/' {
        comp
    } else if base.len() == 0 {
        comp
    } else if base.last() == '/' {
        base + comp
    } else {
        base + seq!['/'] + comp
    }
}

/// Joining paths adds no character but `/`.
pub proof fn lemma_path_join_lacks(base: Seq<char>, comp: Seq<char>, c: char)
    requires
        lacks(base, c),
        lacks(comp, c),
        c != '/',
    ensures
        lacks(path_join(base, comp), c),
{
    let j = path_join(base, comp);
    if !(comp.len() > 0 && comp[0] == '/') && base.len() > 0 {
        assert forall|i: int| 0 <= i < j.len() implies #[trigger] j[i] != c by {
            if i < base.len() {
                assert(j[i] == base[i]);
            } else if base.last() == '/' {
                assert(j[i] == comp[i - base.len()]);
            } else if i > base.len() {
                assert(j[i] == comp[i - base.len() - 1]);
            }
        }
    }
}

/// Joins a path and a component (see `path_join`).
pub fn join_path(base: &str, comp: &str) -> (r: String)
    ensures
        r@ == path_join(base@, comp@),
{
    let b = chars_of(base);
    let c = chars_of(comp);
    if c.len() > 0 && c[0] == '/' {
        return string_of(&c);
    }
    if b.len() == 0 {
        return string_of(&c);
    }
    let mut out = b;
    if out[out.len() - 1] != '/' {
        out.push('/');
    }
    extend_str(&mut out, comp);
    string_of(&out)
}

/// The platforms whose layouts differ.
#[derive(Debug, Clone, Copy, PartialEq, Eq, Structural)]
pub enum Platform {
    /// Linux and every other platform but macOS.
    Linux,
    /// macOS.
    MacOs,
}

/// Where a platform keeps the client's state under the home directory.
pub open spec fn platform_state_dir(home: Seq<char>, platform: Platform) -> Seq<char> {
    match platform {
        Platform::Linux => path_join(path_join(path_join(home, ".local"@), "share"@), "medium"@),
        Platform::MacOs => path_join(path_join(path_join(path_join(home, "Library"@), "Application Support"@), "Medium"@), "state"@),
    }
}

/// The client's directories and files.
#[derive(Debug, Clone)]
pub struct AppPaths {
    pub home_dir: String,
    pub app_config_dir: String,
    pub state_dir: String,
    pub state_path: String,
    pub ssh_dir: String,
    pub ssh_config_path: String,
    pub ssh_config_dir: String,
    pub overlay_ssh_config_path: String,
}

/// The parts common to both layouts, given the home and the state directory.
pub open spec fn layout_ok(p: AppPaths, home: Seq<char>, state_dir: Seq<char>) -> bool {
    let ssh_dir = path_join(home, ".ssh"@);
    let ssh_config_dir = path_join(ssh_dir, "config.d"@);
    &&& p.home_dir@ == home
    &&& p.app_config_dir@ == path_join(home, ".medium"@)
    &&& p.state_dir@ == state_dir
    &&& p.state_path@ == path_join(state_dir, "state.json"@)
    &&& p.ssh_dir@ == ssh_dir
    &&& p.ssh_config_path@ == path_join(ssh_dir, "config"@)
    &&& p.ssh_config_dir@ == ssh_config_dir
    &&& p.overlay_ssh_config_path@ == path_join(ssh_config_dir, "medium.conf"@)
}

impl AppPaths {
    fn with_state_dir(home: &str, state_dir: String) -> (p: AppPaths)
        ensures
            layout_ok(p, home@, state_dir@),
    {
        let ssh_dir = join_path(home, ".ssh");
        let ssh_config_dir = join_path(ssh_dir.as_str(), "config.d");
        AppPaths {
            home_dir: string_of(&chars_of(home)),
            app_config_dir: join_path(home, ".medium"),
            state_path: join_path(state_dir.as_str(), "state.json"),
            state_dir,
            ssh_config_path: join_path(ssh_dir.as_str(), "config"),
            overlay_ssh_config_path: join_path(ssh_config_dir.as_str(), "medium.conf"),
            ssh_dir,
            ssh_config_dir,
        }
    }

    /// The Linux layout: state under `~/.local/share/medium`.
    pub fn for_linux_home(home_dir: &str) -> (p: AppPaths)
        ensures
            layout_ok(p, home_dir@, path_join(path_join(path_join(home_dir@, ".local"@), "share"@), "medium"@)),
    {
        let local = join_path(home_dir, ".local");
        let share = join_path(local.as_str(), "share");
        let state_dir = join_path(share.as_str(), "medium");
        Self::with_state_dir(home_dir, state_dir)
    }

    /// The macOS layout: state under `~/Library/Application Support/Medium/state`.
    pub fn for_macos_home(home_dir: &str) -> (p: AppPaths)
        ensures
            layout_ok(p, home_dir@, path_join(path_join(path_join(path_join(home_dir@, "Library"@), "Application Support"@), "Medium"@), "state"@)),
    {
        let library = join_path(home_dir, "Library");
        let support = join_path(library.as_str(), "Application Support");
        let app_root = join_path(support.as_str(), "Medium");
        let state_dir = join_path(app_root.as_str(), "state");
        Self::with_state_dir(home_dir, state_dir)
    }

    /// The layout of the platform: macOS keeps state under Application Support, every other
    /// platform uses the Linux layout.
    pub fn from_home(home_dir: &str, platform: Platform) -> (p: AppPaths)
        ensures
            layout_ok(p, home_dir@, platform_state_dir(home_dir@, platform)),
    {
        match platform {
            Platform::MacOs => Self::for_macos_home(home_dir),
            Platform::Linux => Self::for_linux_home(home_dir),
        }
    }

    /// The layout under the first home that is set: `MEDIUM_HOME`, then `OVERLAY_HOME`, then
    /// `HOME`, each given as read from the environment; `None` when none of them is set.
    pub fn from_env(medium_home: Option<&str>, overlay_home: Option<&str>, home: Option<&str>, platform: Platform) -> (r: Option<AppPaths>)
        ensures
            r is None <==> (medium_home is None && overlay_home is None && home is None),
            r is Some ==> {
                let chosen = if medium_home is Some {
                    medium_home->0@
                } else if overlay_home is Some {
                    overlay_home->0@
                } else {
                    home->0@
                };
                layout_ok(r->0, chosen, platform_state_dir(chosen, platform))
            },
    {
        match medium_home {
            Some(h) => Some(Self::from_home(h, platform)),
            None => match overlay_home {
                Some(h) => Some(Self::from_home(h, platform)),
                None => match home {
                    Some(h) => Some(Self::from_home(h, platform)),
                    None => None,
                },
            },
        }
    }
}

} // verus!
