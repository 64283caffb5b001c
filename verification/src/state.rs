//! What a joined client remembers, and how it comes to be.
use vstd::prelude::*;
use crate::app::normalize_device_label;
use crate::client_api::{control_url_spec, normalize_control_url};
use crate::invite::{Invite, InviteError};
use crate::paths::{join_path, path_join, AppPaths};
use crate::text::{chars_of, string_of, trim, trim_end_char, trim_end_char_chars};

verus! {

/// The state a client keeps after joining or pairing.
#[derive(Debug, Clone)]
pub struct AppState {
    pub server_url: String,
    pub device_name: String,
    pub bootstrap_code: String,
    pub invite_version: u32,
}

/// Where the legacy client kept its state: `~/.config/overlay/state.json`.
pub open spec fn legacy_state_path_spec(home: Seq<char>) -> Seq<char> {
    path_join(path_join(path_join(home, ".config"@), "overlay"@), "state.json"@)
}

/// The legacy state file under the client's home.
pub fn legacy_state_path(paths: &AppPaths) -> (r: String)
    ensures
        r@ == legacy_state_path_spec(paths.home_dir@),
{
    let config = join_path(paths.home_dir.as_str(), ".config");
    let overlay = join_path(config.as_str(), "overlay");
    join_path(overlay.as_str(), "state.json")
}

/// How a state file is named in messages: the file itself.
pub fn display_state_path(paths: &AppPaths, path: &str) -> (r: String)
    ensures
        r@ == path@,
{
    let _ = paths;
    path.to_string()
}

/// The name this device joins under: the first configured name that is not blank once
/// normalised, or `medium-client`.
pub open spec fn device_name_spec(candidates: Seq<Seq<char>>) -> Seq<char>
    decreases candidates.len(),
{
    if candidates.len() == 0 {
        "medium-client"@
    } else if trim(candidates[0]).len() > 0 {
        trim(candidates[0])
    } else {
        device_name_spec(candidates.drop_first())
    }
}

/// The plain value of candidate names.
pub open spec fn names_view(v: Seq<String>) -> Seq<Seq<char>> {
    v.map_values(|s: String| s@)
}

/// The first usable device name among the candidates, in order (`MEDIUM_DEVICE_NAME`,
/// `HOSTNAME`, `COMPUTERNAME`), or `medium-client` (see `device_name_spec`).
pub fn local_device_name(candidates: &Vec<String>) -> (r: String)
    ensures
        r@ == device_name_spec(names_view(candidates@)),
{
    let ghost all = names_view(candidates@);
    let mut i: usize = 0;
    assert(all.skip(0) =~= all);
    while i < candidates.len()
        invariant
            i <= candidates@.len(),
            all == names_view(candidates@),
            device_name_spec(all) == device_name_spec(all.skip(i as int)),
        decreases candidates@.len() - i,
    {
        proof {
            assert(all.skip(i as int)[0] == candidates@[i as int]@);
            assert(all.skip(i as int).drop_first() =~= all.skip(i + 1));
        }
        let name = normalize_device_label(candidates[i].as_str());
        if !name.as_str().is_empty() {
            return name;
        }
        i = i + 1;
    }
    "medium-client".to_string()
}

/// Joining with an invite: the control URL normalised, the device name given, no bootstrap
/// code, and the invite's version.
pub fn join(invite: &Invite, device_name: String) -> (r: Result<AppState, InviteError>)
    ensures
        match control_url_spec(invite.control_url@, crate::client_api::url_parse_of(invite.control_url@)) {
            Ok(u) => r matches Ok(s) && s.server_url@ == u && s.device_name@ == device_name@
                && s.bootstrap_code@.len() == 0 && s.invite_version == invite.version,
            Err(f) => r matches Err(e) && e@ == f,
        },
{
    let server_url = normalize_control_url(invite.control_url.as_str())?;
    Ok(AppState { server_url, device_name, bootstrap_code: String::new(), invite_version: invite.version })
}

/// Why pairing fails.
#[derive(Debug, Clone, Copy, PartialEq, Eq, Structural)]
pub enum PairError {
    /// The control plane's answer holds neither a token, a code nor an invite.
    MissingToken,
}

impl PairError {
    /// The message shown to the user.
    pub fn message(&self) -> (s: &'static str)
        ensures
            s@ == "bootstrap response is missing a token"@,
    {
        "bootstrap response is missing a token"
    }
}

/// The bootstrap code from the control plane's answer: the token, else the code, else an empty
/// code when an invite came instead; nothing at all is an error.
pub open spec fn bootstrap_code_spec(invite: Seq<char>, token: Seq<char>, code: Seq<char>) -> Result<Seq<char>, PairError> {
    if token.len() > 0 {
        Ok(token)
    } else if code.len() > 0 {
        Ok(code)
    } else if invite.len() > 0 {
        Ok(seq![])
    } else {
        Err(PairError::MissingToken)
    }
}

/// The server URL without trailing slashes.
pub fn server_base(server_url: &str) -> (r: String)
    ensures
        r@ == trim_end_char(server_url@, '/'),
{
    let c = chars_of(server_url);
    let t = trim_end_char_chars(&c, '/');
    string_of(&t)
}

/// A URL under the server: the server URL without trailing slashes, then `path`.
pub fn api_url(server_url: &str, path: &str) -> (r: String)
    ensures
        r@ == trim_end_char(server_url@, '/') + path@,
{
    let c = chars_of(server_url);
    let mut t = trim_end_char_chars(&c, '/');
    crate::text::extend_str(&mut t, path);
    string_of(&t)
}

/// Pairing: the state for a server (trailing slashes dropped) and device, with the bootstrap
/// code from the control plane's answer (see `bootstrap_code_spec`).
pub fn pair(server_url: &str, device_name: &str, invite: &str, bootstrap_token: &str, code: &str) -> (r: Result<AppState, PairError>)
    ensures
        match bootstrap_code_spec(invite@, bootstrap_token@, code@) {
            Ok(c) => r matches Ok(s) && s.server_url@ == trim_end_char(server_url@, '/')
                && s.device_name@ == device_name@ && s.bootstrap_code@ == c && s.invite_version == 0,
            Err(e) => r == Err::<AppState, PairError>(e),
        },
{
    let bootstrap_code = if !bootstrap_token.is_empty() {
        bootstrap_token.to_string()
    } else if !code.is_empty() {
        code.to_string()
    } else if !invite.is_empty() {
        String::new()
    } else {
        return Err(PairError::MissingToken);
    };
    Ok(AppState {
        server_url: server_base(server_url),
        device_name: device_name.to_string(),
        bootstrap_code,
        invite_version: 0,
    })
}


/// Trailing slashes do not change the URLs built under a server: with an extra `/` or without,
/// the server's base is the same, and taking the base twice changes nothing.
pub proof fn lemma_server_base_ignores_trailing_slash(server_url: Seq<char>)
    ensures
        trim_end_char(server_url.push('/'), '/') == trim_end_char(server_url, '/'),
        trim_end_char(trim_end_char(server_url, '/'), '/') == trim_end_char(server_url, '/'),
    decreases server_url.len(),
{
    assert(server_url.push('/').drop_last() =~= server_url);
    if server_url.len() > 0 && server_url.last() == '/' {
        lemma_server_base_ignores_trailing_slash(server_url.drop_last());
        assert(server_url.drop_last().push('/') =~= server_url);
    }
}

} // verus!
