//! The command line: what a command asks for, and what is printed.

use vstd::prelude::*;

use crate::error::Error;
use crate::exec::{ExecEvent, ExecRequest};
use crate::limits::{ResourceLimits, TimeSpan};
use crate::mcp::McpConfig;
use crate::paths;
use crate::paths::join;
use crate::proto::error_kind::{SPAWN_FAILED, TIMEOUT};
use crate::text;
use crate::text::{copied, decimal_text, quoted, same, split_once};
use crate::types::{
    DiffEntry, DiffKind, Sandbox, SandboxId, SandboxSpec, SnapshotId, SnapshotMeta,
};

verus! {

/// Exit code for failures of our own, as opposed to the command's exit code,
/// which is passed through.
pub const EXIT_INTERNAL: i32 = 125;

/// Exit code for a command that missed its deadline.
pub const EXIT_TIMEOUT: i32 = 124;

/// Exit code for a command that could not be started.
pub const EXIT_SPAWN_FAILED: i32 = 127;

/// A command as it was given.
#[derive(Debug)]
pub enum Command {
    /// Create and start a sandbox around a project directory.
    Run {
        project_dir: String,
        name: Option<String>,
        memory_max: Option<u64>,
        cpu_millis: Option<u32>,
        pids_max: Option<u32>,
        network: bool,
        insecure_host_proc: bool,
        env: Vec<String>,
    },
    /// Run a command inside a sandbox, streaming its output.
    Exec {
        sandbox: String,
        cwd: Option<String>,
        /// In seconds.
        timeout: Option<u64>,
        env: Vec<String>,
        argv: Vec<String>,
    },
    /// Capture a sandbox's files.
    Snapshot { sandbox: String, name: String },
    /// Start a sandbox from a snapshot.
    Restore { snapshot: String, name: Option<String> },
    /// Show a layer's changes.
    Diff { target: String, json: bool },
    /// Kill a sandbox's processes and delete all its state.
    Destroy { sandbox: String },
    /// Serve the tools over stdio.
    Mcp { call_timeout: u64, max_sandboxes: usize },
}

/// What a command asks for.
#[derive(Debug)]
pub enum Request {
    Spawn(SandboxSpec),
    Exec { sandbox: String, request: ExecRequest },
    Snapshot { sandbox: String, name: String },
    Restore { snapshot: String, name: Option<String> },
    Diff { target: String, json: bool },
    Destroy { sandbox: String },
    Serve(McpConfig),
}

/// Where sandboxes' state lives: `$XDG_STATE_HOME/draug`, falling back to
/// `~/.local/state/draug`.
pub open spec fn default_state_root(
    xdg_state_home: Option<Seq<char>>,
    home: Option<Seq<char>>,
) -> Seq<char> {
    let base = match xdg_state_home {
        Some(d) => d,
        None => paths::under(
            match home {
                Some(h) => h,
                None => ""@,
            },
            ".local/state"@,
        ),
    };
    paths::under(base, "draug"@)
}

/// Where sandboxes' state lives, given the two environment variables that it
/// depends on.
pub fn state_root(xdg_state_home: Option<&str>, home: Option<&str>) -> (r: String)
    ensures
        xdg_state_home matches Some(d) ==> r@ == paths::under(d@, "draug"@),
        xdg_state_home is None ==> (home matches Some(h) ==> r@ == paths::under(
            paths::under(h@, ".local/state"@),
            "draug"@,
        )),
        xdg_state_home is None && home is None ==> r@ == paths::under(".local/state"@, "draug"@),
        r@ == default_state_root(
            match xdg_state_home {
                Some(d) => Some(d@),
                None => None,
            },
            match home {
                Some(h) => Some(h@),
                None => None,
            },
        ),
{
    let base: String = match xdg_state_home {
        Some(d) => copied(d),
        None => match home {
            Some(h) => join(h, ".local/state"),
            None => join("", ".local/state"),
        },
    };
    proof {
        reveal_strlit("");
    }
    join(base.as_str(), "draug")
}

// --- environment -------------------------------------------------------------

/// The key and value that `KEY=VALUE` stands for.
pub open spec fn pair_in(p: Seq<char>) -> Option<(Seq<char>, Seq<char>)> {
    let n = text::until(p, '=');
    if n < p.len() {
        Some((p.take(n), p.skip(n + 1)))
    } else {
        None
    }
}

/// The first of the texts that is no `KEY=VALUE`.
pub open spec fn bad_pair(v: Seq<Seq<char>>) -> Option<Seq<char>>
    decreases v.len(),
{
    if v.len() == 0 {
        None
    } else if pair_in(v[0]) is None {
        Some(v[0])
    } else {
        bad_pair(v.skip(1))
    }
}

/// The keys and values that the texts stand for.
pub open spec fn pairs_in(v: Seq<Seq<char>>) -> Seq<(Seq<char>, Seq<char>)> {
    v.map_values(|p: Seq<char>| pair_in(p)->0)
}

/// A variable's name ends at the first equals sign, and everything after that
/// is its value; a text without one names no variable, and no others are
/// refused.
pub proof fn law_variables_split_at_the_first_equals(p: Seq<char>, v: Seq<Seq<char>>)
    ensures
        pair_in(p) is Some <==> p.contains('='),
        pair_in(p) matches Some(kv) ==> p == kv.0 + seq!['='] + kv.1 && !kv.0.contains('='),
        bad_pair(v) is None <==> forall|i: int|
            0 <= i < v.len() ==> (#[trigger] v[i]).contains('='),
        bad_pair(v) matches Some(b) ==> v.contains(b) && !b.contains('='),
    decreases v.len(),
{
    text::lemma_until(p, '=');
    let n = text::until(p, '=');
    if n < p.len() {
        assert(p[n] == '=');
        assert(p =~= p.take(n) + seq!['='] + p.skip(n + 1));
        assert forall|k: int| 0 <= k < n implies p.take(n)[k] != '=' by {
            assert(p.take(n)[k] == p[k]);
        }
    }
    if v.len() > 0 {
        let w = v[0];
        text::lemma_until(w, '=');
        if text::until(w, '=') < w.len() {
            assert(w.contains('='));
        }
        law_variables_split_at_the_first_equals(p, v.skip(1));
        if bad_pair(v.skip(1)) is Some {
            let b = bad_pair(v.skip(1))->0;
            let k = choose|k: int| 0 <= k < v.skip(1).len() && v.skip(1)[k] == b;
            assert(v[k + 1] == b);
        }
        assert forall|i: int| 0 <= i < v.skip(1).len() implies v.skip(1)[i] == v[i + 1] by {}
        if forall|i: int| 0 <= i < v.len() ==> (#[trigger] v[i]).contains('=') {
            assert forall|i: int| 0 <= i < v.skip(1).len() implies (
            #[trigger] v.skip(1)[i]).contains('=') by {
                assert(v[i + 1].contains('='));
            }
        }
        if bad_pair(v) is None {
            assert forall|i: int| 0 <= i < v.len() implies (#[trigger] v[i]).contains('=') by {
                if i > 0 {
                    assert(v.skip(1)[i - 1].contains('='));
                }
            }
        }
    }
}

/// What is said of a text that is no `KEY=VALUE`.
pub open spec fn bad_pair_text(p: Seq<char>) -> Seq<char> {
    "--env "@ + text::debug_text(p) + " is not KEY=VALUE"@
}

/// The keys and values that the texts stand for.
pub fn parse_env(pairs: &Vec<String>) -> (r: Result<Vec<(String, String)>, String>)
    ensures
        match bad_pair(text::views(pairs@)) {
            Some(p) => r matches Err(m) && m@ == bad_pair_text(p),
            None => r matches Ok(v) && text::pair_views(v@) == pairs_in(text::views(pairs@)),
        },
        r matches Ok(v) ==> v@.len() == pairs@.len() && forall|i: int|
            0 <= i < pairs@.len() ==> (#[trigger] pairs@[i])@ == v@[i].0@ + seq!['='] + v@[i].1@
                && !v@[i].0@.contains('='),
        r is Err <==> exists|i: int| 0 <= i < pairs@.len() && !(#[trigger] pairs@[i])@.contains('='),
        r is Err ==> exists|i: int|
            0 <= i < pairs@.len() && !(#[trigger] pairs@[i])@.contains('=') && (r matches Err(m) && m@
                == "--env "@ + text::debug_text(pairs@[i]@) + " is not KEY=VALUE"@),
{
    let ghost all = text::views(pairs@);
    let mut out: Vec<(String, String)> = Vec::new();
    let mut i: usize = 0;
    assert(all.skip(0) =~= all);
    assert(text::pair_views(out@) =~= pairs_in(all).take(0));
    while i < pairs.len()
        invariant
            i <= pairs@.len(),
            all == text::views(pairs@),
            bad_pair(all) == bad_pair(all.skip(i as int)),
            text::pair_views(out@) == pairs_in(all).take(i as int),
        decreases pairs@.len() - i,
    {
        let ghost before = out@;
        assert(all.skip(i as int)[0] == pairs@[i as int]@);
        assert(all.skip(i as int).skip(1) =~= all.skip(i + 1));
        match split_once(pairs[i].as_str(), '=') {
            Some((k, v)) => {
                let p: (String, String) = (copied(k), copied(v));
                out.push(p);
                assert(text::pair_views(out@) =~= text::pair_views(before).push((p.0@, p.1@)));
                assert(pairs_in(all)[i as int] == (p.0@, p.1@));
                assert(text::pair_views(out@) =~= pairs_in(all).take(i + 1));
            },
            None => {
                proof {
                    law_variables_split_at_the_first_equals(pairs@[i as int]@, all);
                }
                let mut m: String = copied("--env ");
                m.append(quoted(pairs[i].as_str()).as_str());
                m.append(" is not KEY=VALUE");
                return Err(m);
            },
        }
        i += 1;
    }
    assert(all.skip(i as int) =~= Seq::<Seq<char>>::empty());
    proof {
        assert(pairs_in(all).take(i as int) =~= pairs_in(all));
        law_variables_split_at_the_first_equals(Seq::empty(), all);
        assert forall|k: int| 0 <= k < pairs@.len() implies (#[trigger] pairs@[k])@ == out@[k].0@
            + seq!['='] + out@[k].1@ && !out@[k].0@.contains('=') && pairs@[k]@.contains('=') by {
            assert(all[k] == pairs@[k]@);
            assert(all[k].contains('='));
            law_variables_split_at_the_first_equals(pairs@[k]@, Seq::empty());
            assert(text::pair_views(out@)[k] == (out@[k].0@, out@[k].1@));
            assert(pairs_in(all)[k] == pair_in(all[k])->0);
        }
    }
    Ok(out)
}

// --- what a command asks for -------------------------------------------------

/// The environment that a command carries along.
pub open spec fn env_of(c: Command) -> Seq<Seq<char>> {
    match c {
        Command::Run { env, .. } => text::views(env@),
        Command::Exec { env, .. } => text::views(env@),
        _ => Seq::empty(),
    }
}

/// The request that a command with a proper environment comes to.
pub open spec fn asks(c: Command, r: Request) -> bool {
    match c {
        Command::Run {
            project_dir,
            name,
            memory_max,
            cpu_millis,
            pids_max,
            network,
            insecure_host_proc,
            env,
        } => {
            &&& r matches Request::Spawn(s)
            &&& s.name == name
            &&& s.rootfs == project_dir
            &&& s.from_snapshot is None
            &&& s.limits == (ResourceLimits {
                cpu_millis,
                memory_bytes: memory_max,
                pids: pids_max,
                disk_bytes: None,
                wall_time: None,
            })
            &&& text::pair_views(s.env@) == pairs_in(text::views(env@))
            &&& s.network == network
            &&& s.allow_host_proc_fallback == insecure_host_proc
        },
        Command::Exec { sandbox, cwd, timeout, env, argv } => {
            &&& r matches Request::Exec { sandbox: s, request: q }
            &&& s == sandbox
            &&& q.argv == argv
            &&& text::pair_views(q.env@) == pairs_in(text::views(env@))
            &&& q.cwd == cwd
            &&& q.timeout_ms == match timeout {
                Some(t) => Some((t * 1000) as u64),
                None => None,
            }
        },
        Command::Snapshot { sandbox, name } => r == (Request::Snapshot { sandbox, name }),
        Command::Restore { snapshot, name } => r == (Request::Restore { snapshot, name }),
        Command::Diff { target, json } => r == (Request::Diff { target, json }),
        Command::Destroy { sandbox } => r == (Request::Destroy { sandbox }),
        Command::Mcp { call_timeout, max_sandboxes } => r == Request::Serve(
            McpConfig { call_timeout: TimeSpan { secs: call_timeout, nanos: 0 }, max_sandboxes },
        ),
    }
}

/// What a command asks for. An environment that makes no sense is refused; a
/// timeout whose milliseconds overflow is left to the caller to refuse.
pub fn request_for(c: Command) -> (r: Result<Request, Error>)
    requires
        c matches Command::Exec { timeout: Some(t), .. } ==> t * 1000 <= u64::MAX,
    ensures
        match bad_pair(env_of(c)) {
            Some(p) => r matches Err(e) && e.is_invalid_spec(bad_pair_text(p)),
            None => r matches Ok(q) && asks(c, q),
        },
        (c is Run || c is Exec) || r is Ok,
        r matches Ok(q) ==> match c {
            Command::Run {
                project_dir,
                name,
                memory_max,
                cpu_millis,
                pids_max,
                network,
                insecure_host_proc,
                env,
            } => {
                &&& q matches Request::Spawn(s)
                &&& s.name == name
                &&& s.rootfs == project_dir
                &&& s.from_snapshot is None
                &&& s.limits.memory_bytes == memory_max
                &&& s.limits.cpu_millis == cpu_millis
                &&& s.limits.pids == pids_max
                &&& s.limits.disk_bytes is None
                &&& s.limits.wall_time is None
                &&& s.network == network
                &&& s.allow_host_proc_fallback == insecure_host_proc
                &&& s.env@.len() == env@.len()
                &&& forall|i: int|
                    0 <= i < env@.len() ==> (#[trigger] env@[i])@ == s.env@[i].0@ + seq!['=']
                        + s.env@[i].1@ && !s.env@[i].0@.contains('=')
            },
            Command::Exec { sandbox, cwd, timeout, env, argv } => {
                &&& q matches Request::Exec { sandbox: s, request: e }
                &&& s == sandbox
                &&& e.argv == argv
                &&& e.cwd == cwd
                &&& timeout is None <==> e.timeout_ms is None
                &&& timeout matches Some(t) ==> (e.timeout_ms matches Some(ms) && ms == 1000 * t)
                &&& e.env@.len() == env@.len()
                &&& forall|i: int|
                    0 <= i < env@.len() ==> (#[trigger] env@[i])@ == e.env@[i].0@ + seq!['=']
                        + e.env@[i].1@ && !e.env@[i].0@.contains('=')
            },
            Command::Snapshot { sandbox, name } => q == (Request::Snapshot { sandbox, name }),
            Command::Restore { snapshot, name } => q == (Request::Restore { snapshot, name }),
            Command::Diff { target, json } => q == (Request::Diff { target, json }),
            Command::Destroy { sandbox } => q == (Request::Destroy { sandbox }),
            Command::Mcp { call_timeout, max_sandboxes } => q matches Request::Serve(m)
                && m.call_timeout.secs == call_timeout && m.call_timeout.nanos == 0
                && m.max_sandboxes == max_sandboxes,
        },
{
    match c {
        Command::Run {
            project_dir,
            name,
            memory_max,
            cpu_millis,
            pids_max,
            network,
            insecure_host_proc,
            env,
        } => {
            let ghost texts = env@;
            let env: Vec<(String, String)> = match parse_env(&env) {
                Ok(v) => v,
                Err(m) => {
                    return Err(Error::InvalidSpec(m));
                },
            };
            assert(env@.len() == texts.len() && forall|i: int|
                0 <= i < texts.len() ==> (#[trigger] texts[i])@ == env@[i].0@ + seq!['='] + env@[i].1@
                    && !env@[i].0@.contains('='));
            Ok(
                Request::Spawn(
                    SandboxSpec {
                        name,
                        rootfs: project_dir,
                        from_snapshot: None,
                        limits: ResourceLimits {
                            cpu_millis,
                            memory_bytes: memory_max,
                            pids: pids_max,
                            disk_bytes: None,
                            wall_time: None,
                        },
                        env,
                        network,
                        allow_host_proc_fallback: insecure_host_proc,
                    },
                ),
            )
        },
        Command::Exec { sandbox, cwd, timeout, env, argv } => {
            let ghost texts = env@;
            let env: Vec<(String, String)> = match parse_env(&env) {
                Ok(v) => v,
                Err(m) => {
                    return Err(Error::InvalidSpec(m));
                },
            };
            assert(env@.len() == texts.len() && forall|i: int|
                0 <= i < texts.len() ==> (#[trigger] texts[i])@ == env@[i].0@ + seq!['='] + env@[i].1@
                    && !env@[i].0@.contains('='));
            let timeout_ms: Option<u64> = match timeout {
                Some(t) => Some(t * 1000),
                None => None,
            };
            Ok(Request::Exec { sandbox, request: ExecRequest { argv, env, cwd, timeout_ms } })
        },
        Command::Snapshot { sandbox, name } => Ok(Request::Snapshot { sandbox, name }),
        Command::Restore { snapshot, name } => Ok(Request::Restore { snapshot, name }),
        Command::Diff { target, json } => Ok(Request::Diff { target, json }),
        Command::Destroy { sandbox } => Ok(Request::Destroy { sandbox }),
        Command::Mcp { call_timeout, max_sandboxes } => Ok(
            Request::Serve(
                McpConfig { call_timeout: TimeSpan::from_secs(call_timeout), max_sandboxes },
            ),
        ),
    }
}

/// Which sandbox to destroy, given what looking it up came to: names are
/// resolved, and an unknown one is taken for an id, whose destruction does
/// nothing.
pub fn destroy_target(found: Result<Sandbox, Error>, given: &str) -> (r: Result<
    (SandboxId, bool),
    Error,
>)
    ensures
        match found {
            Ok(sb) => r matches Ok((id, existed)) && id.0@ == sb@.id && existed,
            Err(e) => if e is NotFound {
                r matches Ok((id, existed)) && id.0@ == given@ && !existed
            } else {
                r == Err::<(SandboxId, bool), Error>(e)
            },
        },
{
    match found {
        Ok(sb) => Ok((sb.id, true)),
        Err(Error::NotFound { kind: _, id: _ }) => Ok((SandboxId(copied(given)), false)),
        Err(e) => Err(e),
    }
}

// --- what is printed ---------------------------------------------------------

/// What to print, and how to exit.
#[derive(Debug)]
pub struct Report {
    pub out: String,
    pub err: String,
    pub code: i32,
}

impl Report {
    /// This prints `out` and `err`, and exits with `code`.
    pub open spec fn says(self, out: Seq<char>, err: Seq<char>, code: i32) -> bool {
        self.out@ == out && self.err@ == err && self.code == code
    }
}

/// A report says what is printed, on either stream, and the exit code.
pub proof fn law_report_is_its_parts(r: Report, out: Seq<char>, err: Seq<char>, code: i32)
    ensures
        r.says(out, err, code) <==> r.out@ == out && r.err@ == err && r.code == code,
{
}

/// A name in brackets, with a space before it; nothing without a name.
pub open spec fn bracketed(name: Option<Seq<char>>) -> Seq<char> {
    match name {
        Some(n) => " ("@ + n + ")"@,
        None => Seq::empty(),
    }
}

fn push_bracketed(s: &mut String, name: &Option<String>)
    ensures
        final(s)@ == old(s)@ + bracketed(text::opt_view(*name)),
        *name is None ==> final(s)@ == old(s)@,
        *name matches Some(n) ==> final(s)@ == old(s)@ + " ("@ + n@ + ")"@,
{
    match name {
        Some(n) => {
            s.append(" (");
            s.append(n.as_str());
            s.append(")");
            assert(s@ =~= old(s)@ + bracketed(text::opt_view(*name)));
        },
        None => {
            assert(s@ =~= old(s)@ + bracketed(text::opt_view(*name)));
        },
    }
}

/// The report on a sandbox that was started: its id is the output.
pub fn spawned(sb: &Sandbox) -> (r: Report)
    ensures
        r.says(
            sb@.id + "\n"@,
            "sandbox "@ + sb@.id + bracketed(sb@.name) + " is ready\n"@,
            0,
        ),
        sb@.name matches Some(n) ==> r.err@ == "sandbox "@ + sb@.id + " ("@ + n + ") is ready\n"@,
        sb@.name is None ==> r.err@ == "sandbox "@ + sb@.id + " is ready\n"@,
{
    let mut out: String = sb.id.0.clone();
    out.append("\n");
    let mut err: String = copied("sandbox ");
    err.append(sb.id.0.as_str());
    push_bracketed(&mut err, &sb.name);
    err.append(" is ready\n");
    proof {
        reveal_strlit(") is ready\n");
        reveal_strlit(" is ready\n");
        reveal_strlit(")");
        assert(")"@ + " is ready\n"@ =~= ") is ready\n"@);
        match sb@.name {
            Some(n) => {
                assert(err@ =~= "sandbox "@ + sb@.id + " ("@ + n + (")"@ + " is ready\n"@));
                assert(err@ =~= "sandbox "@ + sb@.id + " ("@ + n + ") is ready\n"@);
            },
            None => {
                assert(err@ =~= "sandbox "@ + sb@.id + " is ready\n"@);
            },
        }
    }
    Report { out, err, code: 0 }
}

/// The report on a sandbox that was destroyed.
pub fn destroyed(id: &SandboxId) -> (r: Report)
    ensures
        r.says(Seq::empty(), "sandbox "@ + id.0@ + " destroyed\n"@, 0),
{
    let mut err: String = copied("sandbox ");
    err.append(id.0.as_str());
    err.append(" destroyed\n");
    let out: String = String::new();
    assert(out@ =~= Seq::<char>::empty());
    Report { out, err, code: 0 }
}

/// The report on a snapshot that was taken: its id is the output.
pub fn captured(snap: &SnapshotId, name: &str, sb: &SandboxId) -> (r: Report)
    ensures
        r.says(
            snap.0@ + "\n"@,
            "snapshot "@ + snap.0@ + " ("@ + name@ + ") captured from "@ + sb.0@ + "\n"@,
            0,
        ),
{
    let mut out: String = snap.0.clone();
    out.append("\n");
    let mut err: String = copied("snapshot ");
    err.append(snap.0.as_str());
    err.append(" (");
    err.append(name);
    err.append(") captured from ");
    err.append(sb.0.as_str());
    err.append("\n");
    Report { out, err, code: 0 }
}

/// The report on a snapshot that was restored: the new sandbox's id is the
/// output.
pub fn restored(snap: &SnapshotMeta, sb: &Sandbox) -> (r: Report)
    ensures
        r.says(
            sb@.id + "\n"@,
            "restored snapshot "@ + snap@.id + " into sandbox "@ + sb@.id + bracketed(sb@.name)
                + "\n"@,
            0,
        ),
        sb@.name matches Some(n) ==> r.err@ == "restored snapshot "@ + snap@.id + " into sandbox "@
            + sb@.id + " ("@ + n + ")"@ + "\n"@,
        sb@.name is None ==> r.err@ == "restored snapshot "@ + snap@.id + " into sandbox "@
            + sb@.id + "\n"@,
{
    let mut out: String = sb.id.0.clone();
    out.append("\n");
    let mut err: String = copied("restored snapshot ");
    err.append(snap.id.0.as_str());
    err.append(" into sandbox ");
    err.append(sb.id.0.as_str());
    push_bracketed(&mut err, &sb.name);
    err.append("\n");
    proof {
        let start = "restored snapshot "@ + snap@.id + " into sandbox "@ + sb@.id;
        match sb@.name {
            Some(n) => {
                assert(err@ =~= start + " ("@ + n + ")"@ + "\n"@);
            },
            None => {
                assert(err@ =~= start + "\n"@);
            },
        }
    }
    Report { out, err, code: 0 }
}

/// One line of a diff: a mark, the path, and the size where there is one.
pub open spec fn diff_line(e: DiffEntry) -> Seq<char> {
    (match e.kind {
        DiffKind::Added => "+ "@,
        DiffKind::Modified => "~ "@,
        DiffKind::Deleted => "- "@,
    }) + e.path@ + (match e.size {
        Some(n) => " ("@ + text::decimal(n as nat) + " bytes)\n"@,
        None => "\n"@,
    })
}

/// A diff, one line for each change.
pub open spec fn diff_lines(v: Seq<DiffEntry>) -> Seq<char>
    decreases v.len(),
{
    if v.len() == 0 {
        Seq::empty()
    } else {
        diff_lines(v.drop_last()) + diff_line(v.last())
    }
}

/// Every change has a line of its own: a plus for what was added, a tilde for
/// what was modified, a minus for what was deleted, the path, and the size in
/// bytes where there is one.
pub proof fn law_each_change_has_its_line(v: Seq<DiffEntry>, e: DiffEntry)
    ensures
        diff_lines(Seq::empty()).len() == 0,
        e.size is None ==> diff_lines(v.push(e)) == diff_lines(v) + (match e.kind {
            DiffKind::Added => "+ "@,
            DiffKind::Modified => "~ "@,
            DiffKind::Deleted => "- "@,
        }) + e.path@ + "\n"@,
        e.size matches Some(n) ==> exists|d: Seq<char>|
            diff_lines(v.push(e)) == diff_lines(v) + (match e.kind {
                DiffKind::Added => "+ "@,
                DiffKind::Modified => "~ "@,
                DiffKind::Deleted => "- "@,
            }) + e.path@ + " ("@ + d + " bytes)\n"@ && #[trigger] text::parsed(
                d,
                10,
                u64::MAX as int,
            ) == Some(n as int),
{
    assert(v.push(e).drop_last() =~= v);
    let mark = match e.kind {
        DiffKind::Added => "+ "@,
        DiffKind::Modified => "~ "@,
        DiffKind::Deleted => "- "@,
    };
    match e.size {
        Some(n) => {
            let d = text::decimal(n as nat);
            text::law_number_roundtrip(n as nat, 10, u64::MAX as int);
            assert(diff_lines(v.push(e)) =~= diff_lines(v) + mark + e.path@ + " ("@ + d
                + " bytes)\n"@);
        },
        None => {
            assert(diff_lines(v.push(e)) =~= diff_lines(v) + mark + e.path@ + "\n"@);
        },
    }
}

/// The report on a layer's changes.
pub fn differs(v: &Vec<DiffEntry>) -> (r: Report)
    ensures
        if v@.len() == 0 {
            r.says(Seq::empty(), "no changes against the base image\n"@, 0)
        } else {
            r.says(diff_lines(v@), Seq::empty(), 0)
        },
{
    let mut out: String = String::new();
    assert(out@ =~= Seq::<char>::empty());
    if v.len() == 0 {
        return Report { out, err: copied("no changes against the base image\n"), code: 0 };
    }
    let mut i: usize = 0;
    assert(v@.take(0) =~= Seq::<DiffEntry>::empty());
    while i < v.len()
        invariant
            i <= v@.len(),
            out@ == diff_lines(v@.take(i as int)),
        decreases v@.len() - i,
    {
        let ghost before = out@;
        assert(v@.take(i + 1).drop_last() =~= v@.take(i as int));
        match v[i].kind {
            DiffKind::Added => {
                out.append("+ ");
            },
            DiffKind::Modified => {
                out.append("~ ");
            },
            DiffKind::Deleted => {
                out.append("- ");
            },
        }
        out.append(v[i].path.as_str());
        match v[i].size {
            Some(n) => {
                out.append(" (");
                out.append(decimal_text(n).as_str());
                out.append(" bytes)\n");
            },
            None => {
                out.append("\n");
            },
        }
        assert(out@ =~= before + diff_line(v@[i as int]));
        i += 1;
    }
    assert(v@.take(i as int) =~= v@);
    let err: String = String::new();
    assert(err@ =~= Seq::<char>::empty());
    Report { out, err, code: 0 }
}

/// What is said before the tools are served.
pub fn serving(cfg: &McpConfig) -> (r: String)
    ensures
        r@ == "sbx: MCP server on stdio (max "@ + text::decimal(cfg.max_sandboxes as nat)
            + " sandboxes, "@ + text::decimal(cfg.call_timeout.secs as nat) + "s call timeout)\n"@,
{
    let mut m: String = copied("sbx: MCP server on stdio (max ");
    m.append(decimal_text(cfg.max_sandboxes as u64).as_str());
    m.append(" sandboxes, ");
    m.append(decimal_text(cfg.call_timeout.secs).as_str());
    m.append("s call timeout)\n");
    m
}

/// The report on a failure.
pub fn failed(e: &Error) -> (r: Report)
    ensures
        r.says(Seq::empty(), "sbx: error: "@ + e.text() + "\n"@, 125),
{
    let mut err: String = copied("sbx: error: ");
    err.append(e.message().as_str());
    err.append("\n");
    let out: String = String::new();
    assert(out@ =~= Seq::<char>::empty());
    Report { out, err, code: EXIT_INTERNAL }
}

/// The report on a registry that could not be opened.
pub fn no_registry(e: &Error) -> (r: Report)
    ensures
        r.says(Seq::empty(), "sbx: cannot open registry: "@ + e.text() + "\n"@, 125),
{
    let mut err: String = copied("sbx: cannot open registry: ");
    err.append(e.message().as_str());
    err.append("\n");
    let out: String = String::new();
    assert(out@ =~= Seq::<char>::empty());
    Report { out, err, code: EXIT_INTERNAL }
}

// --- running a command -------------------------------------------------------

/// What to do about an event of a command that runs.
pub enum ExecStep {
    /// Nothing.
    Continue,
    /// Write those bytes to standard output.
    ToStdout(Vec<u8>),
    /// Write those bytes to standard error.
    ToStderr(Vec<u8>),
    /// Exit.
    Exit(i32),
    /// Say that on standard error, and exit.
    Fail { message: String, code: i32 },
}

/// The exit code for a command that ended: its own, or 128 and the signal that
/// killed it.
pub open spec fn exit_code(code: Option<i32>, signal: Option<i32>) -> int {
    match (code, signal) {
        (Some(c), _) => c as int,
        (None, Some(s)) => 128 + s,
        (None, None) => EXIT_INTERNAL as int,
    }
}

/// The exit code for a command that could not be run.
pub open spec fn failure_code(kind: Seq<char>) -> i32 {
    if kind == TIMEOUT@ {
        EXIT_TIMEOUT
    } else if kind == SPAWN_FAILED@ {
        EXIT_SPAWN_FAILED
    } else {
        EXIT_INTERNAL
    }
}

/// A command's own exit code is passed on whatever it is, and whatever killed
/// whom; a command that a signal killed gives 128 and the signal, so that
/// neither two codes nor two signals come to the same. Our own failures have
/// codes of their own, the same three everywhere.
pub proof fn law_exit_codes_are_passed_on(
    code: Option<i32>,
    signal: Option<i32>,
    kind: Seq<char>,
)
    ensures
        code matches Some(c) ==> exit_code(code, signal) == c,
        code is None ==> (signal matches Some(s) ==> exit_code(code, signal) - s == 128),
        code is None && signal is None ==> exit_code(code, signal) == 125,
        failure_code(kind) == 124 <==> kind == "timeout"@,
        failure_code(kind) == 127 <==> kind == "spawn-failed"@,
        failure_code(kind) == 125 <==> kind != "timeout"@ && kind != "spawn-failed"@,
{
    reveal_strlit("timeout");
    reveal_strlit("spawn-failed");
    assert("timeout"@[0] != "spawn-failed"@[0]);
}

/// What to do about an event of a command that runs.
pub fn on_event(e: ExecEvent) -> (r: ExecStep)
    requires
        e matches ExecEvent::Exited { code: None, signal: Some(s) } ==> 128 + s <= i32::MAX,
    ensures
        match e {
            ExecEvent::Started { .. } => r is Continue,
            ExecEvent::Stdout(d) => r == ExecStep::ToStdout(d),
            ExecEvent::Stderr(d) => r == ExecStep::ToStderr(d),
            ExecEvent::Exited { code, signal } => r matches ExecStep::Exit(c) && c == exit_code(
                code,
                signal,
            ) && (code matches Some(own) ==> c == own) && (code is None ==> (signal matches Some(
                s,
            ) ==> c == 128 + s)) && (code is None && signal is None ==> c == 125),
            ExecEvent::Failed { kind, message } => {
                &&& r matches ExecStep::Fail { message: m, code: c }
                &&& m@ == "sbx: exec failed ("@ + kind@ + "): "@ + message@ + "\n"@
                &&& c == failure_code(kind@)
                &&& kind@ == "timeout"@ ==> c == 124
                &&& kind@ == "spawn-failed"@ ==> c == 127
                &&& kind@ != "timeout"@ && kind@ != "spawn-failed"@ ==> c == 125
            },
        },
{
    proof {
        reveal_strlit("timeout");
        reveal_strlit("spawn-failed");
        assert("timeout"@[0] != "spawn-failed"@[0]);
    }
    match e {
        ExecEvent::Started { pid: _ } => ExecStep::Continue,
        ExecEvent::Stdout(d) => ExecStep::ToStdout(d),
        ExecEvent::Stderr(d) => ExecStep::ToStderr(d),
        ExecEvent::Exited { code, signal } => match (code, signal) {
            (Some(c), _) => ExecStep::Exit(c),
            (None, Some(s)) => ExecStep::Exit(128 + s),
            (None, None) => ExecStep::Exit(EXIT_INTERNAL),
        },
        ExecEvent::Failed { kind, message } => {
            let code: i32 = if same(kind.as_str(), TIMEOUT) {
                EXIT_TIMEOUT
            } else if same(kind.as_str(), SPAWN_FAILED) {
                EXIT_SPAWN_FAILED
            } else {
                EXIT_INTERNAL
            };
            let mut m: String = copied("sbx: exec failed (");
            m.append(kind.as_str());
            m.append("): ");
            m.append(message.as_str());
            m.append("\n");
            ExecStep::Fail { message: m, code }
        },
    }
}

/// What it means that a command's events ended without a last one.
pub fn stream_ended() -> (r: ExecStep)
    ensures
        r matches ExecStep::Fail { message, code } && message@
            == "sbx: exec stream ended unexpectedly\n"@ && code == 125,
{
    ExecStep::Fail { message: copied("sbx: exec stream ended unexpectedly\n"), code: EXIT_INTERNAL }
}

} // verus!
