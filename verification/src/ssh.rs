//! The SSH configuration a client keeps for the devices it can reach: the managed host file, the
//! `Include` line in the main SSH config, and the retirement of the legacy `overlay.conf`.
use vstd::prelude::*;
use crate::paths::{join_path, path_join, AppPaths};
use crate::protocol::{DeviceRecord, SshEndpoint};
use crate::text::{
    chars_of, contains, contains_chars, dec, eq_chars, extend, extend_str, is_ws, join, lacks, lines, lines_of,
    lines_rec, push_dec, strip_cr, string_of, trim, trim_chars, trim_end, trim_start, lemma_lines_rec_last,
    lemma_lines_rec_append,
};

verus! {

/// The line in the main SSH config that pulls in the managed host file.
pub open spec fn main_include() -> Seq<char> {
    "Include ~/.ssh/config.d/medium.conf"@
}

/// The `Include` line of the legacy managed host file.
pub open spec fn legacy_include() -> Seq<char> {
    "Include ~/.ssh/config.d/overlay.conf"@
}

/// Why an SSH sync cannot go on.
#[derive(Debug, Clone, Copy, PartialEq, Eq, Structural)]
pub enum SshSyncError {
    /// The main SSH config lacks the include line and the user did not allow rewriting it.
    MissingMainInclude,
}

impl SshSyncError {
    /// The message shown to the user.
    pub fn message(&self) -> (s: &'static str)
        ensures
            s@ == "main SSH config is missing medium include; re-run with --write-main-config"@,
    {
        "main SSH config is missing medium include; re-run with --write-main-config"
    }
}

/// What a sync did, as reported to the user.
#[derive(Debug, Clone)]
pub struct SyncReport {
    pub main_config_updated: bool,
    pub managed_backup_path: Option<String>,
    pub hosts_written: usize,
}

/// Does the content of a legacy `overlay.conf` show that the legacy client wrote it (rather
/// than the user)?
pub open spec fn is_legacy_managed_spec(contents: Seq<char>) -> bool {
    contains(contents, "# Managed by overlay."@) || contains(contents, "ProxyCommand overlay proxy ssh --device "@)
}

/// Whether a legacy `overlay.conf` was written by the legacy client (see `is_legacy_managed_spec`).
pub fn is_legacy_overlay_managed_config(contents: &str) -> (r: bool)
    ensures
        r == is_legacy_managed_spec(contents@),
{
    let c = chars_of(contents);
    let header = chars_of("# Managed by overlay.");
    let proxy = chars_of("ProxyCommand overlay proxy ssh --device ");
    contains_chars(&c, &header) || contains_chars(&c, &proxy)
}

/// Where the legacy managed host file lives: `overlay.conf` beside the managed one.
pub fn legacy_overlay_ssh_config_path(paths: &AppPaths) -> (r: String)
    ensures
        r@ == path_join(paths.ssh_config_dir@, "overlay.conf"@),
{
    join_path(paths.ssh_config_dir.as_str(), "overlay.conf")
}

// ---------------------------------------------------------------------------
// The managed host file
// ---------------------------------------------------------------------------

/// The block of the managed host file for one device with an SSH endpoint.
pub open spec fn host_entry(name: Seq<char>, ssh: SshEndpoint) -> Seq<char> {
    "# endpoint "@ + ssh.host@ + ":"@ + dec(ssh.port as nat) + "\nHost "@ + name + "\n  HostName "@ + name
        + "\n  User "@ + ssh.user@ + "\n  ProxyCommand medium proxy ssh --device "@ + name + "\n\n"@
}

/// The blocks for the devices that have an SSH endpoint, in order.
pub open spec fn host_entries(devices: Seq<DeviceRecord>) -> Seq<char>
    decreases devices.len(),
{
    if devices.len() == 0 {
        seq![]
    } else {
        let d = devices.last();
        host_entries(devices.drop_last()) + match d.ssh {
            Some(ssh) => host_entry(d.name@, ssh),
            None => seq![],
        }
    }
}

/// The managed host file: a header, then one block per device with an SSH endpoint.
pub open spec fn managed_config_spec(devices: Seq<DeviceRecord>) -> Seq<char> {
    "# Managed by medium. DO NOT EDIT.\n\n"@ + host_entries(devices)
}

/// The number of devices with an SSH endpoint.
pub open spec fn ssh_host_count(devices: Seq<DeviceRecord>) -> nat
    decreases devices.len(),
{
    if devices.len() == 0 {
        0
    } else {
        ssh_host_count(devices.drop_last()) + if devices.last().ssh is Some { 1nat } else { 0nat }
    }
}

/// Renders the managed host file for `devices` (see `managed_config_spec`).
pub fn render_managed_config(devices: &[DeviceRecord]) -> (r: String)
    ensures
        r@ == managed_config_spec(devices@),
{
    let mut out: Vec<char> = chars_of("# Managed by medium. DO NOT EDIT.\n\n");
    let mut i: usize = 0;
    while i < devices.len()
        invariant
            i <= devices@.len(),
            out@ == "# Managed by medium. DO NOT EDIT.\n\n"@ + host_entries(devices@.take(i as int)),
        decreases devices@.len() - i,
    {
        let d = &devices[i];
        let ghost before = out@;
        match &d.ssh {
            Some(ssh) => {
                extend_str(&mut out, "# endpoint ");
                extend_str(&mut out, ssh.host.as_str());
                extend_str(&mut out, ":");
                push_dec(&mut out, ssh.port as u64);
                extend_str(&mut out, "\nHost ");
                extend_str(&mut out, d.name.as_str());
                extend_str(&mut out, "\n  HostName ");
                extend_str(&mut out, d.name.as_str());
                extend_str(&mut out, "\n  User ");
                extend_str(&mut out, ssh.user.as_str());
                extend_str(&mut out, "\n  ProxyCommand medium proxy ssh --device ");
                extend_str(&mut out, d.name.as_str());
                extend_str(&mut out, "\n\n");
                proof {
                    assert(out@ =~= before + host_entry(d.name@, *ssh));
                }
            },
            None => {},
        }
        proof {
            assert(devices@.take(i + 1).drop_last() =~= devices@.take(i as int));
            assert(devices@.take(i + 1).last() == devices@[i as int]);
            assert(out@ =~= "# Managed by medium. DO NOT EDIT.\n\n"@ + host_entries(devices@.take(i + 1)));
        }
        i = i + 1;
    }
    assert(devices@.take(devices@.len() as int) =~= devices@);
    string_of(&out)
}

/// How many hosts a sync writes: the devices with an SSH endpoint.
pub fn ssh_hosts_written(devices: &[DeviceRecord]) -> (n: usize)
    ensures
        n == ssh_host_count(devices@),
{
    let mut n: usize = 0;
    let mut i: usize = 0;
    while i < devices.len()
        invariant
            i <= devices@.len(),
            n == ssh_host_count(devices@.take(i as int)),
            n <= i,
        decreases devices@.len() - i,
    {
        proof {
            assert(devices@.take(i + 1).drop_last() =~= devices@.take(i as int));
        }
        if devices[i].ssh.is_some() {
            n = n + 1;
        }
        i = i + 1;
    }
    assert(devices@.take(devices@.len() as int) =~= devices@);
    n
}

// ---------------------------------------------------------------------------
// The include line in the main SSH config
// ---------------------------------------------------------------------------

/// One line of the main config: the legacy include goes when the legacy file is managed, a
/// second medium include goes, every other line stays. The state is the kept lines, whether the
/// medium include was seen, and whether a line was dropped.
pub open spec fn include_step(st: (Seq<Seq<char>>, bool, bool), line: Seq<char>, legacy_managed: bool) -> (Seq<Seq<char>>, bool, bool) {
    let t = trim(line);
    if legacy_managed && t == legacy_include() {
        (st.0, st.1, true)
    } else if t == main_include() && st.1 {
        (st.0, st.1, true)
    } else if t == main_include() {
        (st.0.push(line), true, st.2)
    } else {
        (st.0.push(line), st.1, st.2)
    }
}

/// `include_step` over the lines in order.
pub open spec fn include_scan(ls: Seq<Seq<char>>, legacy_managed: bool) -> (Seq<Seq<char>>, bool, bool)
    decreases ls.len(),
{
    if ls.len() == 0 {
        (seq![], false, false)
    } else {
        include_step(include_scan(ls.drop_last(), legacy_managed), ls.last(), legacy_managed)
    }
}

/// Lines written back as a file: joined by newlines, with a final newline unless empty.
pub open spec fn text_of_lines(ls: Seq<Seq<char>>) -> Seq<char> {
    if ls.len() == 0 {
        seq![]
    } else {
        join(ls, seq!['\n']) + seq!['\n']
    }
}

/// The new main config, if it must change: `Ok(None)` when it already holds exactly one medium
/// include and nothing else must go; an error when it lacks the include and rewriting was not
/// allowed; otherwise the kept lines, with the medium include appended when it was missing.
pub open spec fn main_include_plan(current: Seq<char>, write_main_config: bool, legacy_managed: bool) -> Result<Option<Seq<char>>, SshSyncError> {
    let st = include_scan(lines(current), legacy_managed);
    if !st.1 && !write_main_config {
        Err(SshSyncError::MissingMainInclude)
    } else if st.1 && !st.2 {
        Ok(None)
    } else if st.1 {
        Ok(Some(text_of_lines(st.0)))
    } else {
        Ok(Some(text_of_lines(st.0.push(main_include()))))
    }
}

/// The plain value of a planned rewrite.
pub open spec fn plan_view(r: Result<Option<String>, SshSyncError>) -> Result<Option<Seq<char>>, SshSyncError> {
    match r {
        Ok(Some(s)) => Ok(Some(s@)),
        Ok(None) => Ok(None),
        Err(e) => Err(e),
    }
}

/// Decides how the main SSH config (`current`, empty when the file does not exist) must change
/// (see `main_include_plan`).
pub fn plan_main_include(current: &str, write_main_config: bool, legacy_overlay_is_managed: bool) -> (r: Result<Option<String>, SshSyncError>)
    ensures
        plan_view(r) == main_include_plan(current@, write_main_config, legacy_overlay_is_managed),
{
    let text = chars_of(current);
    let ls = lines_of(&text);
    let main = chars_of("Include ~/.ssh/config.d/medium.conf");
    let legacy = chars_of("Include ~/.ssh/config.d/overlay.conf");
    let ghost all = lines(current@);
    let mut kept: Vec<Vec<char>> = Vec::new();
    let mut has_medium = false;
    let mut needs_rewrite = false;
    let mut i: usize = 0;
    while i < ls.len()
        invariant
            i <= ls@.len(),
            all == lines(current@),
            ls@.len() == all.len(),
            forall|k: int| 0 <= k < ls@.len() ==> #[trigger] ls@[k]@ == all[k],
            main@ == main_include(),
            legacy@ == legacy_include(),
            kept@.map_values(|p: Vec<char>| p@) == include_scan(all.take(i as int), legacy_overlay_is_managed).0,
            has_medium == include_scan(all.take(i as int), legacy_overlay_is_managed).1,
            needs_rewrite == include_scan(all.take(i as int), legacy_overlay_is_managed).2,
        decreases ls@.len() - i,
    {
        let line = &ls[i];
        let t = trim_chars(line);
        let is_legacy = eq_chars(&t, &legacy);
        let is_main = eq_chars(&t, &main);
        let ghost kv = kept@.map_values(|p: Vec<char>| p@);
        proof {
            assert(all.take(i + 1).drop_last() =~= all.take(i as int));
            assert(all.take(i + 1).last() == all[i as int]);
        }
        if legacy_overlay_is_managed && is_legacy {
            needs_rewrite = true;
        } else if is_main && has_medium {
            needs_rewrite = true;
        } else if is_main {
            has_medium = true;
            kept.push(line.clone());
            assert(kept@.map_values(|p: Vec<char>| p@) =~= kv.push(all[i as int]));
        } else {
            kept.push(line.clone());
            assert(kept@.map_values(|p: Vec<char>| p@) =~= kv.push(all[i as int]));
        }
        i = i + 1;
    }
    assert(all.take(all.len() as int) =~= all);
    if !has_medium && !write_main_config {
        return Err(SshSyncError::MissingMainInclude);
    }
    if has_medium && !needs_rewrite {
        return Ok(None);
    }
    if !has_medium {
        let ghost kv = kept@.map_values(|p: Vec<char>| p@);
        kept.push(main);
        assert(kept@.map_values(|p: Vec<char>| p@) =~= kv.push(main_include()));
    }
    let ghost st = include_scan(all, legacy_overlay_is_managed);
    let ghost final_lines = if st.1 { st.0 } else { st.0.push(main_include()) };
    assert(kept@.map_values(|p: Vec<char>| p@) == final_lines);
    let nl: Vec<char> = vec!['\n'];
    assert(nl@ =~= seq!['\n']);
    let mut next = crate::text::join_chars(&kept, &nl);
    assert(next@ == join(final_lines, seq!['\n']));
    if kept.len() > 0 {
        next.push('\n');
        assert(next@ =~= join(final_lines, seq!['\n']) + seq!['\n']);
    } else {
        assert(kept@.map_values(|p: Vec<char>| p@).len() == 0);
        assert(next@ =~= Seq::<char>::empty());
    }
    Ok(Some(string_of(&next)))
}

// ---------------------------------------------------------------------------
// A whole sync
// ---------------------------------------------------------------------------

/// What a sync does, decided from what is on disk.
#[derive(Debug)]
pub struct SshSyncPlan {
    /// Copy the existing managed host file aside before it is rewritten.
    pub backup_managed: bool,
    /// Copy the legacy `overlay.conf` aside (it is managed and will be neutralised).
    pub backup_legacy: bool,
    /// The new main config, if it changes; an error stops the sync after the backups.
    pub main_config: Result<Option<String>, SshSyncError>,
    /// The new managed host file.
    pub managed_config: String,
    /// Replace the legacy `overlay.conf` by `legacy_stub()`.
    pub neutralize_legacy: bool,
    /// The number of hosts written.
    pub hosts_written: usize,
}

/// What is written over a managed legacy `overlay.conf`.
pub open spec fn legacy_stub_spec() -> Seq<char> {
    "# Legacy overlay SSH config disabled by medium.\n# Managed entries moved to medium.conf.\n"@
}

/// The text that replaces a managed legacy `overlay.conf`.
pub fn legacy_stub() -> (s: &'static str)
    ensures
        s@ == legacy_stub_spec(),
{
    "# Legacy overlay SSH config disabled by medium.\n# Managed entries moved to medium.conf.\n"
}

/// Plans a sync of the SSH configuration. `main_config` is the main SSH config (`None` when the
/// file does not exist), `managed_exists` tells whether the managed host file exists, and
/// `legacy_overlay` is the legacy `overlay.conf` (`None` when it does not exist). A legacy file
/// counts as managed only when its content shows the legacy client wrote it; a user's own
/// `overlay.conf` and its include line are left alone.
pub fn plan_ssh_sync(
    main_config: Option<&str>,
    managed_exists: bool,
    legacy_overlay: Option<&str>,
    devices: &[DeviceRecord],
    write_main_config: bool,
) -> (p: SshSyncPlan)
    ensures
        ({
            let legacy_managed = match legacy_overlay {
                Some(c) => is_legacy_managed_spec(c@),
                None => false,
            };
            let current = match main_config {
                Some(c) => c@,
                None => Seq::<char>::empty(),
            };
            &&& p.backup_managed == managed_exists
            &&& p.backup_legacy == legacy_managed
            &&& plan_view(p.main_config) == main_include_plan(current, write_main_config, legacy_managed)
            &&& p.managed_config@ == managed_config_spec(devices@)
            &&& p.neutralize_legacy == legacy_managed
            &&& p.hosts_written == ssh_host_count(devices@)
        }),
{
    let legacy_managed = match legacy_overlay {
        Some(c) => is_legacy_overlay_managed_config(c),
        None => false,
    };
    let main_plan = match main_config {
        Some(c) => plan_main_include(c, write_main_config, legacy_managed),
        None => plan_main_include("", write_main_config, legacy_managed),
    };
    proof {
        if main_config is None {
            reveal_strlit("");
        }
    }
    SshSyncPlan {
        backup_managed: managed_exists,
        backup_legacy: legacy_managed,
        main_config: main_plan,
        managed_config: render_managed_config(devices),
        neutralize_legacy: legacy_managed,
        hosts_written: ssh_hosts_written(devices),
    }
}

/// The report of a sync: the main config was updated when it was rewritten, and the backup
/// reported is the managed file's, or else the legacy file's.
pub fn sync_report(
    main_config_rewritten: bool,
    managed_backup: Option<String>,
    legacy_backup: Option<String>,
    hosts_written: usize,
) -> (r: SyncReport)
    ensures
        r.main_config_updated == main_config_rewritten,
        r.hosts_written == hosts_written,
        r.managed_backup_path == (if managed_backup is Some { managed_backup } else { legacy_backup }),
{
    let managed_backup_path = match managed_backup {
        Some(p) => Some(p),
        None => legacy_backup,
    };
    SyncReport { main_config_updated: main_config_rewritten, managed_backup_path, hosts_written }
}


// ---------------------------------------------------------------------------
// A rewritten main config is stable
// ---------------------------------------------------------------------------

/// A single line: it holds no newline.
pub open spec fn clean_line(x: Seq<char>) -> bool {
    lacks(x, '\n')
}

/// Lines as reading gives them back: each without one trailing carriage return.
pub open spec fn strip_crs(ls: Seq<Seq<char>>) -> Seq<Seq<char>> {
    ls.map_values(|l: Seq<char>| strip_cr(l))
}

/// Writing lines as a file and reading its lines gives them back, each without one trailing
/// carriage return.
proof fn lemma_lines_of_text(ls: Seq<Seq<char>>)
    requires
        ls.len() > 0,
        forall|k: int| 0 <= k < ls.len() ==> clean_line(#[trigger] ls[k]),
    ensures
        lines(text_of_lines(ls)) == strip_crs(ls),
    decreases ls.len(),
{
    let last = ls.last();
    assert(clean_line(last)) by {
        assert(clean_line(ls[ls.len() - 1]));
    }
    if ls.len() == 1 {
        assert(join(ls, seq!['\n']) == ls[0]);
        lemma_lines_rec_last(last, seq![]);
        assert(Seq::<char>::empty() + last =~= last);
        assert(lines(text_of_lines(ls)) =~= strip_crs(ls));
    } else {
        let dl = ls.drop_last();
        assert forall|k: int| 0 <= k < dl.len() implies clean_line(#[trigger] dl[k]) by {
            assert(dl[k] == ls[k]);
        }
        lemma_lines_of_text(dl);
        let t = text_of_lines(dl);
        let u = last + seq!['\n'];
        assert(text_of_lines(ls) =~= t + u);
        assert(t.last() == '\n');
        lemma_lines_rec_append(t, u, seq![]);
        lemma_lines_rec_last(last, seq![]);
        assert(Seq::<char>::empty() + last =~= last);
        assert(lines(text_of_lines(ls)) =~= strip_crs(ls));
    }
}

/// Dropping one trailing carriage return keeps a line single.
proof fn lemma_strip_cr_clean(x: Seq<char>)
    requires
        clean_line(x),
    ensures
        clean_line(strip_cr(x)),
{
    let y = strip_cr(x);
    assert forall|i: int| 0 <= i < y.len() implies #[trigger] y[i] != '\n' by {
        assert(y[i] == x[i]);
    }
}

/// Every line that reading gives is a single line.
proof fn lemma_lines_rec_clean(s: Seq<char>, cur: Seq<char>)
    requires
        clean_line(cur),
    ensures
        forall|k: int| 0 <= k < lines_rec(s, cur).len() ==> clean_line(#[trigger] lines_rec(s, cur)[k]),
    decreases s.len(),
{
    if s.len() == 0 {
        if cur.len() == 0 {
            assert(lines_rec(s, cur) =~= Seq::<Seq<char>>::empty());
        } else {
            assert(lines_rec(s, cur) =~= seq![cur]);
            assert(lines_rec(s, cur)[0] == cur);
        }
    } else {
        let rest = s.drop_first();
        if s[0] == '\n' {
            lemma_strip_cr_clean(cur);
            lemma_lines_rec_clean(rest, seq![]);
            let r = lines_rec(s, cur);
            assert(r == seq![strip_cr(cur)] + lines_rec(rest, seq![]));
            assert forall|k: int| 0 <= k < r.len() implies clean_line(#[trigger] r[k]) by {
                if k > 0 {
                    assert(r[k] == lines_rec(rest, seq![])[k - 1]);
                }
            }
        } else {
            let c2 = cur.push(s[0]);
            assert(clean_line(c2)) by {
                assert forall|i: int| 0 <= i < c2.len() implies #[trigger] c2[i] != '\n' by {
                    if i < cur.len() {
                        assert(c2[i] == cur[i]);
                    }
                }
            }
            lemma_lines_rec_clean(rest, c2);
            assert(lines_rec(s, cur) == lines_rec(rest, c2));
        }
    }
}

/// Removing a trailing whitespace character does not change the trimmed text.
proof fn lemma_trim_drop_ws_last(l: Seq<char>)
    requires
        l.len() > 0,
        is_ws(l.last()),
    ensures
        trim(l.drop_last()) == trim(l),
    decreases l.len(),
{
    if is_ws(l[0]) {
        if l.len() == 1 {
            assert(l.drop_first() =~= Seq::<char>::empty());
            assert(l.drop_last() =~= Seq::<char>::empty());
            assert(trim_start(l) == trim_start(l.drop_first()));
        } else {
            let d = l.drop_first();
            assert(d.last() == l.last());
            lemma_trim_drop_ws_last(d);
            assert(l.drop_last()[0] == l[0]);
            assert(l.drop_last().drop_first() =~= d.drop_last());
            assert(trim_start(l.drop_last()) == trim_start(d.drop_last()));
            assert(trim_start(l) == trim_start(d));
        }
    } else {
        if l.len() > 1 {
            assert(l.drop_last()[0] == l[0]);
        }
        assert(trim_start(l) == l);
        assert(trim_start(l.drop_last()) == l.drop_last());
        assert(trim_end(l) == trim_end(l.drop_last()));
    }
}

/// A trailing carriage return does not change the trimmed line.
proof fn lemma_trim_strip_cr(l: Seq<char>)
    ensures
        trim(strip_cr(l)) == trim(l),
{
    if l.len() > 0 && l.last() == '\r' {
        assert(is_ws('\r'));
        lemma_trim_drop_ws_last(l);
    }
}

/// Scanning lines without their trailing carriage returns keeps the same decisions.
proof fn lemma_scan_strip_crs(ls: Seq<Seq<char>>, lm: bool)
    ensures
        ({
            let a = include_scan(ls, lm);
            let b = include_scan(strip_crs(ls), lm);
            b.0 == strip_crs(a.0) && b.1 == a.1 && b.2 == a.2
        }),
    decreases ls.len(),
{
    if ls.len() > 0 {
        let dl = ls.drop_last();
        lemma_scan_strip_crs(dl, lm);
        assert(strip_crs(ls).drop_last() =~= strip_crs(dl));
        assert(strip_crs(ls).last() == strip_cr(ls.last()));
        lemma_trim_strip_cr(ls.last());
        let prev = include_scan(dl, lm);
        assert(strip_crs(prev.0.push(ls.last())) =~= strip_crs(prev.0).push(strip_cr(ls.last())));
    } else {
        assert(strip_crs(ls) =~= Seq::<Seq<char>>::empty());
        assert(strip_crs(Seq::<Seq<char>>::empty()) =~= Seq::<Seq<char>>::empty());
    }
}

proof fn lemma_includes_differ()
    ensures
        main_include() != legacy_include(),
        trim(main_include()) == main_include(),
        clean_line(main_include()),
{
    reveal_strlit("Include ~/.ssh/config.d/medium.conf");
    reveal_strlit("Include ~/.ssh/config.d/overlay.conf");
    let m = main_include();
    assert(m[29] != legacy_include()[29]);
    assert(!is_ws(m[0]));
    assert(trim_start(m) == m);
    assert(!is_ws(m.last()));
    assert(trim_end(m) == m);
}

/// What the scan keeps: single lines when the input's are; the medium include once it was seen;
/// and a second scan keeps everything and finds nothing to drop.
proof fn lemma_include_scan_kept(ls: Seq<Seq<char>>, lm: bool, lm2: bool)
    requires
        forall|k: int| 0 <= k < ls.len() ==> clean_line(#[trigger] ls[k]),
        lm2 ==> lm,
    ensures
        ({
            let st = include_scan(ls, lm);
            &&& forall|k: int| 0 <= k < st.0.len() ==> clean_line(#[trigger] st.0[k])
            &&& st.1 ==> st.0.len() > 0
            &&& include_scan(st.0, lm2) == (st.0, st.1, false)
        }),
    decreases ls.len(),
{
    lemma_includes_differ();
    if ls.len() > 0 {
        let dl = ls.drop_last();
        assert forall|k: int| 0 <= k < dl.len() implies clean_line(#[trigger] dl[k]) by {
            assert(dl[k] == ls[k]);
        }
        lemma_include_scan_kept(dl, lm, lm2);
        let prev = include_scan(dl, lm);
        let line = ls.last();
        assert(clean_line(line)) by {
            assert(clean_line(ls[ls.len() - 1]));
        }
        let st = include_scan(ls, lm);
        let t = trim(line);
        if lm && t == legacy_include() {
        } else if t == main_include() && prev.1 {
        } else {
            assert(st.0 == prev.0.push(line));
            assert(st.0.drop_last() =~= prev.0);
            assert(st.0.last() == line);
            assert forall|k: int| 0 <= k < st.0.len() implies clean_line(#[trigger] st.0[k]) by {
                if k < prev.0.len() {
                    assert(st.0[k] == prev.0[k]);
                }
            }
        }
    }
}

/// How many lines are the medium include (surrounding whitespace aside).
pub open spec fn main_include_count(ls: Seq<Seq<char>>) -> nat
    decreases ls.len(),
{
    if ls.len() == 0 {
        0
    } else {
        main_include_count(ls.drop_last()) + if trim(ls.last()) == main_include() { 1nat } else { 0nat }
    }
}

proof fn lemma_scan_counts_includes(ls: Seq<Seq<char>>, lm: bool)
    ensures
        !include_scan(ls, lm).2 ==> main_include_count(ls) == (if include_scan(ls, lm).1 { 1nat } else { 0nat }),
    decreases ls.len(),
{
    if ls.len() > 0 {
        lemma_scan_counts_includes(ls.drop_last(), lm);
    }
}

/// A main config written by a sync holds the medium include exactly once and needs no second
/// rewrite: planning again, whether or not rewriting is allowed, and with the legacy file no more
/// managed than before, leaves it alone.
pub proof fn lemma_main_include_rewrite_is_stable(
    current: Seq<char>,
    write_main_config: bool,
    legacy_managed: bool,
    next: Seq<char>,
    write_again: bool,
    legacy_again: bool,
)
    requires
        main_include_plan(current, write_main_config, legacy_managed) == Ok::<Option<Seq<char>>, SshSyncError>(Some(next)),
        legacy_again ==> legacy_managed,
    ensures
        main_include_plan(next, write_again, legacy_again) == Ok::<Option<Seq<char>>, SshSyncError>(None),
        main_include_count(lines(next)) == 1,
{
    lemma_includes_differ();
    let ls = lines(current);
    lemma_lines_rec_clean(current, seq![]);
    lemma_include_scan_kept(ls, legacy_managed, legacy_again);
    let st = include_scan(ls, legacy_managed);
    let kept = if st.1 { st.0 } else { st.0.push(main_include()) };
    assert(next == text_of_lines(kept));
    assert forall|k: int| 0 <= k < kept.len() implies clean_line(#[trigger] kept[k]) by {
        if k < st.0.len() {
            assert(kept[k] == st.0[k]);
        }
    }
    lemma_lines_of_text(kept);
    if !st.1 {
        assert(kept.drop_last() =~= st.0);
        assert(include_scan(kept, legacy_again) == include_step(include_scan(st.0, legacy_again), main_include(), legacy_again));
    }
    assert(include_scan(kept, legacy_again) == (kept, true, false));
    lemma_scan_strip_crs(kept, legacy_again);
    let read = strip_crs(kept);
    assert(lines(next) == read);
    assert(include_scan(read, legacy_again).1 && !include_scan(read, legacy_again).2);
    lemma_scan_counts_includes(read, legacy_again);
}

/// A scan that found the medium include found it on some line.
pub proof fn lemma_scan_found(ls: Seq<Seq<char>>, legacy_managed: bool)
    ensures
        include_scan(ls, legacy_managed).1 ==> exists|k: int| 0 <= k < ls.len() && #[trigger] trim(ls[k]) == main_include(),
    decreases ls.len(),
{
    if ls.len() > 0 {
        let prev = include_scan(ls.drop_last(), legacy_managed);
        lemma_scan_found(ls.drop_last(), legacy_managed);
        if prev.1 {
            let k = choose|k: int| 0 <= k < ls.drop_last().len() && #[trigger] trim(ls.drop_last()[k]) == main_include();
            assert(ls[k] == ls.drop_last()[k]);
        } else if include_scan(ls, legacy_managed).1 {
            assert(trim(ls[ls.len() - 1]) == main_include());
        }
    }
}

/// Lines that count the medium include hold it on some line.
pub proof fn lemma_count_found(ls: Seq<Seq<char>>)
    ensures
        main_include_count(ls) > 0 ==> exists|k: int| 0 <= k < ls.len() && #[trigger] trim(ls[k]) == main_include(),
    decreases ls.len(),
{
    if ls.len() > 0 {
        lemma_count_found(ls.drop_last());
        if main_include_count(ls.drop_last()) > 0 {
            let k = choose|k: int| 0 <= k < ls.drop_last().len() && #[trigger] trim(ls.drop_last()[k]) == main_include();
            assert(ls[k] == ls.drop_last()[k]);
        } else if main_include_count(ls) > 0 {
            assert(trim(ls[ls.len() - 1]) == main_include());
        }
    }
}

/// The main config text a plan reads: the file's content, or nothing when it does not exist.
pub open spec fn main_text(main_config: Option<Seq<char>>) -> Seq<char> {
    match main_config {
        Some(c) => c,
        None => Seq::<char>::empty(),
    }
}

/// Whether a legacy `overlay.conf`, if there is one, was written by the legacy client.
pub open spec fn legacy_managed_of(legacy_overlay: Option<Seq<char>>) -> bool {
    match legacy_overlay {
        Some(c) => is_legacy_managed_spec(c),
        None => false,
    }
}

/// Without the legacy file counting as managed, a scan finds the medium include just as it does
/// with it, and finds something to drop only where it did with it.
proof fn lemma_scan_without_legacy(ls: Seq<Seq<char>>)
    ensures
        include_scan(ls, false).1 == include_scan(ls, true).1,
        include_scan(ls, false).2 ==> include_scan(ls, true).2,
    decreases ls.len(),
{
    lemma_includes_differ();
    if ls.len() > 0 {
        lemma_scan_without_legacy(ls.drop_last());
    }
}

/// A second sync right after one that went through, this time without leave to write the main
/// config, changes nothing: the main config is left as the first sync left it (so the report
/// says it was not updated), and a legacy `overlay.conf` is either left alone or, having been
/// neutralised, is written again with the very text it already holds. The managed file is
/// written with the same text both times, and backed up first since it now exists.
pub proof fn lemma_second_sync_changes_nothing(main_config: Option<Seq<char>>, legacy_overlay: Option<Seq<char>>, write_main_config: bool)
    requires
        main_include_plan(main_text(main_config), write_main_config, legacy_managed_of(legacy_overlay)) is Ok,
    ensures
        ({
            let lm = legacy_managed_of(legacy_overlay);
            let next_main = match main_include_plan(main_text(main_config), write_main_config, lm) {
                Ok(Some(n)) => Some(n),
                _ => main_config,
            };
            let next_legacy = if lm { Some(legacy_stub_spec()) } else { legacy_overlay };
            &&& main_include_plan(main_text(next_main), false, legacy_managed_of(next_legacy))
                == Ok::<Option<Seq<char>>, SshSyncError>(None)
            &&& legacy_managed_of(next_legacy) ==> next_legacy == Some(legacy_stub_spec())
        }),
{
    let lm = legacy_managed_of(legacy_overlay);
    let current = main_text(main_config);
    let next_legacy = if lm { Some(legacy_stub_spec()) } else { legacy_overlay };
    let lm2 = legacy_managed_of(next_legacy);
    match main_include_plan(current, write_main_config, lm) {
        Ok(Some(n)) => {
            assert(main_text(Some(n)) == n);
            lemma_main_include_rewrite_is_stable(current, write_main_config, lm, n, false, lm2);
        },
        Ok(None) => {
            let ls = lines(current);
            lemma_scan_without_legacy(ls);
            if lm != lm2 {
                assert(lm && !lm2);
            }
        },
        Err(_) => {},
    }
}

/// The managed host file, device by device: with no devices it is just the header; one more
/// device adds, at the end, its block — an `# endpoint host:port` comment and a `Host <name>`
/// entry with `HostName <name>`, `User <user>` and the `medium proxy ssh --device <name>`
/// ProxyCommand — when it has an SSH endpoint, and nothing when it has none. Every device with an
/// endpoint therefore gets its block, in order, and the number of hosts written counts exactly
/// those devices.
pub proof fn lemma_managed_config_per_device(ds: Seq<DeviceRecord>, d: DeviceRecord)
    ensures
        managed_config_spec(Seq::<DeviceRecord>::empty()) == "# Managed by medium. DO NOT EDIT.\n\n"@,
        managed_config_spec(ds.push(d)) == managed_config_spec(ds) + match d.ssh {
            Some(ssh) => "# endpoint "@ + ssh.host@ + ":"@ + dec(ssh.port as nat) + "\nHost "@ + d.name@
                + "\n  HostName "@ + d.name@ + "\n  User "@ + ssh.user@
                + "\n  ProxyCommand medium proxy ssh --device "@ + d.name@ + "\n\n"@,
            None => Seq::<char>::empty(),
        },
        ssh_host_count(Seq::<DeviceRecord>::empty()) == 0,
        ssh_host_count(ds.push(d)) == ssh_host_count(ds) + if d.ssh is Some { 1int } else { 0int },
{
    assert(ds.push(d).drop_last() =~= ds);
    assert(ds.push(d).last() == d);
    assert(host_entries(Seq::<DeviceRecord>::empty()) =~= Seq::<char>::empty());
    assert("# Managed by medium. DO NOT EDIT.\n\n"@ + Seq::<char>::empty() =~= "# Managed by medium. DO NOT EDIT.\n\n"@);
    let h = "# Managed by medium. DO NOT EDIT.\n\n"@;
    let tail = match d.ssh {
        Some(ssh) => host_entry(d.name@, ssh),
        None => Seq::<char>::empty(),
    };
    assert(h + (host_entries(ds) + tail) =~= (h + host_entries(ds)) + tail);
}

/// The file for the first devices is where the file for all of them begins: a device's block,
/// once written, stays in place whatever devices follow.
pub proof fn lemma_managed_config_prefix(ds: Seq<DeviceRecord>, k: int)
    requires
        0 <= k <= ds.len(),
    ensures
        managed_config_spec(ds.take(k)).len() <= managed_config_spec(ds).len(),
        managed_config_spec(ds).take(managed_config_spec(ds.take(k)).len() as int) == managed_config_spec(ds.take(k)),
    decreases ds.len() - k,
{
    if k == ds.len() {
        assert(ds.take(k) =~= ds);
        assert(managed_config_spec(ds).take(managed_config_spec(ds).len() as int) =~= managed_config_spec(ds));
    } else {
        lemma_managed_config_prefix(ds, k + 1);
        let t = ds.take(k + 1);
        assert(t =~= ds.take(k).push(ds[k]));
        lemma_managed_config_per_device(ds.take(k), ds[k]);
        let a = managed_config_spec(ds.take(k));
        let b = managed_config_spec(t);
        let c = managed_config_spec(ds);
        assert(b.take(a.len() as int) =~= a);
        assert(c.take(a.len() as int) =~= b.take(a.len() as int));
    }
}

} // verus!
