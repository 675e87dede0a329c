//! Starting a sandbox.

use vstd::prelude::*;

use crate::error::{Error, IoFailure};
use crate::layout::{upper_dir, BACKEND_NAME};
use crate::paths;
use crate::text;
use crate::text::{
    chars_of, contains, copied, copied_pairs, parse_number, quoted_char, same, strip_prefix, trim,
};
use crate::types::{Sandbox, SandboxFacts, SandboxId, SandboxSpec, SandboxState, SnapshotMeta};

verus! {

// --- the project directory ---------------------------------------------------

/// Control characters, by their Unicode category.
pub open spec fn is_control(c: char) -> bool {
    c as u32 <= 0x1f || 0x7f <= c as u32 <= 0x9f
}

/// A character that overlayfs mount options cannot carry: `,` and `:` separate
/// options, `\` escapes, and control characters corrupt them.
pub open spec fn unsafe_in_options(c: char) -> bool {
    c == ',' || c == ':' || c == '\\' || is_control(c)
}

/// The first character of `s` that mount options cannot carry.
pub open spec fn first_unsafe(s: Seq<char>) -> Option<char>
    decreases s.len(),
{
    if s.len() == 0 {
        None
    } else if unsafe_in_options(s[0]) {
        Some(s[0])
    } else {
        first_unsafe(s.skip(1))
    }
}

fn find_unsafe(s: &str) -> (r: Option<char>)
    ensures
        r == first_unsafe(s@),
        r is None <==> forall|i: int|
            0 <= i < s@.len() ==> (#[trigger] s@[i]) != ',' && s@[i] != ':' && s@[i] != '\\' && s@[i] as u32
                > 0x1f && !(0x7f <= s@[i] as u32 <= 0x9f),
{
    let v: Vec<char> = chars_of(s);
    let mut i: usize = 0;
    assert(v@.skip(0) =~= v@);
    while i < v.len()
        invariant
            i <= v@.len(),
            v@ == s@,
            first_unsafe(s@) == first_unsafe(v@.skip(i as int)),
            forall|k: int|
                0 <= k < i ==> (#[trigger] s@[k]) != ',' && s@[k] != ':' && s@[k] != '\\' && s@[k] as u32
                    > 0x1f && !(0x7f <= s@[k] as u32 <= 0x9f),
        decreases v@.len() - i,
    {
        let c: char = v[i];
        let u: u32 = c as u32;
        if c == ',' || c == ':' || c == '\\' || u <= 0x1f || (0x7f <= u && u <= 0x9f) {
            assert(s@[i as int] == c);
            return Some(c);
        }
        assert(v@.skip(i as int).skip(1) =~= v@.skip(i + 1));
        i += 1;
    }
    None
}

/// What a project path turned out to be.
pub enum ProjectDir {
    /// It could not be resolved.
    Unresolved(IoFailure),
    /// It resolves to this path, which is no directory.
    NotDirectory(String),
    /// It resolves to this directory.
    Directory(String),
}

/// The directory to use for the project path `given`. A path that mount
/// options cannot carry is refused.
pub fn validate_project_dir(given: &str, found: ProjectDir) -> (r: Result<String, Error>)
    ensures
        match found {
            ProjectDir::Unresolved(f) => r matches Err(e) && e.is_invalid_spec(
                "project dir "@ + given@ + ": "@ + f.message@,
            ),
            ProjectDir::NotDirectory(p) => r matches Err(e) && e.is_invalid_spec(
                "project path "@ + p@ + " is not a directory"@,
            ),
            ProjectDir::Directory(p) => match first_unsafe(p@) {
                Some(c) => r matches Err(e) && e.is_invalid_spec(
                    "project path "@ + p@ + " contains "@ + text::debug_char(c)
                        + ", which cannot be expressed safely in overlayfs mount options"@,
                ),
                None => r == Ok::<String, Error>(p),
            },
        },
        r is Ok <==> (found matches ProjectDir::Directory(p) && forall|i: int|
            0 <= i < p@.len() ==> (#[trigger] p@[i]) != ',' && p@[i] != ':' && p@[i] != '\\' && p@[i] as u32
                > 0x1f && !(0x7f <= p@[i] as u32 <= 0x9f)),
        r matches Ok(d) ==> (found matches ProjectDir::Directory(p) && p@ == d@),
{
    match found {
        ProjectDir::Unresolved(f) => {
            let mut m: String = copied("project dir ");
            m.append(given);
            m.append(": ");
            m.append(f.message.as_str());
            Err(Error::InvalidSpec(m))
        },
        ProjectDir::NotDirectory(p) => {
            let mut m: String = copied("project path ");
            m.append(p.as_str());
            m.append(" is not a directory");
            Err(Error::InvalidSpec(m))
        },
        ProjectDir::Directory(p) => match find_unsafe(p.as_str()) {
            Some(c) => {
                let mut m: String = copied("project path ");
                m.append(p.as_str());
                m.append(" contains ");
                m.append(quoted_char(c).as_str());
                m.append(", which cannot be expressed safely in overlayfs mount options");
                Err(Error::InvalidSpec(m))
            },
            None => Ok(p),
        },
    }
}

/// A directory that was accepted holds no character that mount options cannot
/// carry.
pub proof fn law_accepted_path_is_safe(s: Seq<char>, i: int)
    requires
        first_unsafe(s) is None,
        0 <= i < s.len(),
    ensures
        !unsafe_in_options(s[i]),
    decreases s.len(),
{
    if i > 0 {
        law_accepted_path_is_safe(s.skip(1), i - 1);
    }
}

// --- identifiers -------------------------------------------------------------

/// Number of random bytes in an id.
pub const ID_BYTES: usize = 16;

/// Two lowercase hexadecimal digits for each byte.
pub open spec fn hex(b: Seq<u8>) -> Seq<char>
    decreases b.len(),
{
    if b.len() == 0 {
        Seq::empty()
    } else {
        hex(b.drop_last()).push(text::digit_char(b.last() as int / 16)).push(
            text::digit_char(b.last() as int % 16),
        )
    }
}

fn hex_digit(d: u8) -> (r: char)
    requires
        d < 16,
    ensures
        r == text::digit_char(d as int),
{
    if d < 10 {
        (0x30 + d) as char
    } else {
        (0x61 + d - 10) as char
    }
}

/// The id made of those random bytes.
pub fn id_of_bytes(b: &Vec<u8>) -> (r: String)
    ensures
        r@ == hex(b@),
        r@.len() == 2 * b@.len(),
        forall|k: int|
            0 <= k < b@.len() ==> r@[2 * k] as int == (if (#[trigger] b@[k]) < 160 {
                48 + b@[k] / 16
            } else {
                87 + b@[k] / 16
            }) && r@[2 * k + 1] as int == (if b@[k] % 16 < 10 {
                48 + b@[k] % 16
            } else {
                87 + b@[k] % 16
            }),
{
    let mut s: String = String::new();
    let mut i: usize = 0;
    assert(b@.take(0) =~= Seq::<u8>::empty());
    assert(s@ =~= Seq::<char>::empty());
    while i < b.len()
        invariant
            i <= b@.len(),
            s@ == hex(b@.take(i as int)),
            s@.len() == 2 * i,
            forall|k: int|
                0 <= k < i ==> s@[2 * k] as int == (if (#[trigger] b@[k]) < 160 {
                    48 + b@[k] / 16
                } else {
                    87 + b@[k] / 16
                }) && s@[2 * k + 1] as int == (if b@[k] % 16 < 10 {
                    48 + b@[k] % 16
                } else {
                    87 + b@[k] % 16
                }),
        decreases b@.len() - i,
    {
        s.push(hex_digit(b[i] / 16));
        s.push(hex_digit(b[i] % 16));
        assert(b@.take(i + 1).drop_last() =~= b@.take(i as int));
        i += 1;
    }
    assert(b@.take(i as int) =~= b@);
    s
}

/// Different random bytes make different ids.
pub proof fn law_ids_differ(a: Seq<u8>, b: Seq<u8>)
    requires
        hex(a) == hex(b),
    ensures
        a == b,
    decreases a.len(),
{
    lemma_hex_len(a);
    lemma_hex_len(b);
    assert(a.len() == b.len());
    if a.len() > 0 {
        let x = a.last() as int;
        let y = b.last() as int;
        let n = hex(a).len() as int;
        assert(hex(a)[n - 2] == text::digit_char(x / 16));
        assert(hex(b)[n - 2] == text::digit_char(y / 16));
        assert(hex(a)[n - 1] == text::digit_char(x % 16));
        assert(hex(b)[n - 1] == text::digit_char(y % 16));
        assert(text::digit_value(text::digit_char(x / 16)) == x / 16);
        assert(text::digit_value(text::digit_char(y / 16)) == y / 16);
        assert(text::digit_value(text::digit_char(x % 16)) == x % 16);
        assert(text::digit_value(text::digit_char(y % 16)) == y % 16);
        assert(x == y);
        assert(hex(a.drop_last()) =~= hex(a).take(n - 2));
        assert(hex(b.drop_last()) =~= hex(b).take(n - 2));
        law_ids_differ(a.drop_last(), b.drop_last());
        assert(a =~= a.drop_last().push(a.last()));
        assert(b =~= b.drop_last().push(b.last()));
    } else {
        assert(a =~= b);
    }
}

proof fn lemma_hex_len(b: Seq<u8>)
    ensures
        hex(b).len() == 2 * b.len(),
    decreases b.len(),
{
    if b.len() > 0 {
        lemma_hex_len(b.drop_last());
    }
}

/// The time to record, given the seconds since 1970; 0 where the clock is
/// before that.
pub fn unix_now(since_epoch: Option<u64>) -> (r: i64)
    ensures
        r == match since_epoch {
            Some(s) => s as i64,
            None => 0,
        },
{
    match since_epoch {
        Some(s) => s as i64,
        None => 0,
    }
}

// --- the sandbox -------------------------------------------------------------

/// Directories to create in a new state directory.
pub fn state_subdirs() -> (r: Vec<&'static str>)
    ensures
        text::word_views(r@) == seq!["upper"@, "work"@, "rt"@, "root"@],
{
    let mut v: Vec<&'static str> = Vec::new();
    v.push("upper");
    v.push("work");
    v.push("rt");
    v.push("root");
    assert(text::word_views(v@) =~= seq!["upper"@, "work"@, "rt"@, "root"@]);
    v
}

/// What is recorded of a sandbox before anything is set up.
pub open spec fn creating(
    spec: SandboxSpec,
    id: Seq<char>,
    state_dir: Seq<char>,
    project_dir: Seq<char>,
    created_at: int,
) -> SandboxFacts {
    SandboxFacts {
        id,
        name: text::opt_view(spec.name),
        state: SandboxState::Creating,
        backend: BACKEND_NAME@,
        rootfs: project_dir,
        state_dir,
        limits: spec.limits,
        created_at,
    }
}

/// What is recorded of a sandbox before anything is set up.
pub fn new_sandbox(
    spec: &SandboxSpec,
    id: SandboxId,
    state_dir: String,
    project_dir: String,
    created_at: i64,
) -> (r: Sandbox)
    ensures
        r@ == creating(*spec, id.0@, state_dir@, project_dir@, created_at as int),
        r.id.0@ == id.0@,
        text::opt_view(r.name) == text::opt_view(spec.name),
        r.state == SandboxState::Creating,
        r.backend@ == "ns"@,
        r.rootfs@ == project_dir@,
        r.state_dir@ == state_dir@,
        r.limits == spec.limits,
        r.created_at == created_at,
{
    Sandbox {
        id,
        name: match &spec.name {
            Some(n) => Some(n.clone()),
            None => None,
        },
        state: SandboxState::Creating,
        backend: copied(BACKEND_NAME),
        rootfs: project_dir,
        state_dir,
        limits: spec.limits,
        created_at,
    }
}

/// Where the snapshot's layer is copied from, and where to: the new sandbox's
/// own layer.
pub fn seed_paths(snap: &SnapshotMeta, state_dir: &str) -> (r: (String, String))
    ensures
        r.0@ == paths::under(snap@.path, "upper"@),
        r.1@ == paths::under(state_dir@, "upper"@),
{
    (upper_dir(snap.path.as_str()), upper_dir(state_dir))
}

/// The sandbox once it is set up.
pub fn made_ready(sb: Sandbox) -> (r: Sandbox)
    ensures
        r@ == (SandboxFacts { state: SandboxState::Ready, ..sb@ }),
{
    let mut r: Sandbox = sb;
    r.state = SandboxState::Ready;
    r
}

/// What the setup process is told.
#[derive(Debug)]
pub struct SetupConfig {
    pub id: String,
    pub state_dir: String,
    pub project_dir: String,
    pub hostname: String,
    /// Sandbox environment (layered over the guest's base env).
    pub env: Vec<(String, String)>,
    /// Keep the host network namespace instead of an isolated one.
    pub network: bool,
    /// Whether the host side runs as real root.
    pub host_is_root: bool,
    /// Whether the host's `/proc` may stand in for a private one.
    pub allow_host_proc_fallback: bool,
}

/// What the setup process is told about a new sandbox. Its host name is the
/// sandbox's name, or made from its id.
pub fn setup_config(
    sb: &Sandbox,
    spec: &SandboxSpec,
    project_dir: &str,
    host_is_root: bool,
) -> (r: SetupConfig)
    ensures
        r.id@ == sb@.id,
        r.state_dir@ == sb@.state_dir,
        r.project_dir@ == project_dir@,
        r.hostname@ == match spec.name {
            Some(n) => n@,
            None => "draug-"@ + sb@.id,
        },
        text::pair_views(r.env@) == text::pair_views(spec.env@),
        r.network == spec.network,
        r.host_is_root == host_is_root,
        r.allow_host_proc_fallback == spec.allow_host_proc_fallback,
{
    SetupConfig {
        id: sb.id.0.clone(),
        state_dir: sb.state_dir.clone(),
        project_dir: copied(project_dir),
        hostname: match &spec.name {
            Some(n) => n.clone(),
            None => {
                let mut h: String = copied("draug-");
                h.append(sb.id.0.as_str());
                h
            },
        },
        env: copied_pairs(&spec.env),
        network: spec.network,
        host_is_root,
        allow_host_proc_fallback: spec.allow_host_proc_fallback,
    }
}

// --- talking to the setup process --------------------------------------------

/// How long setup may take, in seconds.
pub const SETUP_TIMEOUT_SECS: u64 = 20;

/// What to add to a failure to create a user namespace.
pub const USERNS_ADVICE: &'static str = ". Check `sysctl kernel.unprivileged_userns_clone` (Debian-family), `sysctl user.max_user_namespaces`, and any container seccomp policy";

/// The error that a failed setup comes to: a missing kernel facility where the
/// message speaks of one, else a plain failure.
pub open spec fn is_setup_error(e: Error, msg: Seq<char>) -> bool {
    if text::contains_text(msg, "CLONE_NEWUSER"@) {
        e.is_unsupported(msg + USERNS_ADVICE@)
    } else if text::contains_text(msg, "overlay"@) {
        e.is_unsupported(msg)
    } else {
        e.is_io_other("sandbox setup"@, msg)
    }
}

/// The error that a failed setup comes to.
pub fn setup_error(msg: &str) -> (r: Error)
    ensures
        is_setup_error(r, msg@),
        text::contains_text(msg@, "CLONE_NEWUSER"@) ==> (r matches Error::Unsupported(m) && m@ == msg@
            + ". Check `sysctl kernel.unprivileged_userns_clone` (Debian-family), `sysctl user.max_user_namespaces`, and any container seccomp policy"@),
        !text::contains_text(msg@, "CLONE_NEWUSER"@) && text::contains_text(msg@, "overlay"@) ==> (
        r matches Error::Unsupported(m) && m@ == msg@),
        !text::contains_text(msg@, "CLONE_NEWUSER"@) && !text::contains_text(msg@, "overlay"@) ==> (
        r matches Error::Io { op, source } && op@ == "sandbox setup"@ && source.message@ == msg@),
{
    if contains(msg, "CLONE_NEWUSER") {
        let mut m: String = copied(msg);
        m.append(USERNS_ADVICE);
        Error::Unsupported(m)
    } else if contains(msg, "overlay") {
        Error::Unsupported(copied(msg))
    } else {
        Error::io_other("sandbox setup", msg)
    }
}

/// What to do about a line from the setup process.
pub enum SetupStep {
    /// It has its user namespace: write the id maps, move it into the
    /// sandbox's cgroup, and let it go on.
    MapIds,
    /// Read on.
    Continue,
    /// Show the warning, and read on.
    Warn(String),
    /// The guest with this process number takes connections.
    Ready(u32),
    /// Setup failed.
    Fail(Error),
}

/// The conversation with a setup process.
pub struct SetupDriver {
    /// The guest's process number, once it was announced.
    pub guest_pid: Option<u32>,
}

/// The guest's process number after a line.
pub open spec fn announced(pid: Option<u32>, line: Seq<char>) -> Option<u32> {
    if line != "unshared"@ && text::begins(line, "pid "@) {
        match text::parsed(text::trimmed(line.skip(4)), 10, u32::MAX as int) {
            Some(n) => Some(n as u32),
            None => None,
        }
    } else {
        pid
    }
}

impl SetupDriver {
    /// The conversation at its start.
    pub fn new() -> (r: SetupDriver)
        ensures
            r.guest_pid is None,
    {
        SetupDriver { guest_pid: None }
    }

    /// Takes a line from the setup process.
    pub fn line(&mut self, line: &str) -> (r: SetupStep)
        ensures
            final(self).guest_pid == announced(old(self).guest_pid, line@),
            !text::begins(line@, "pid "@) ==> final(self).guest_pid == old(self).guest_pid,
            text::begins(line@, "pid "@) && line@ != "unshared"@ ==> match text::parsed(
                text::trimmed(line@.skip(4)),
                10,
                0xffff_ffff,
            ) {
                Some(n) => final(self).guest_pid == Some(n as u32),
                None => final(self).guest_pid is None,
            },
            if line@ == "unshared"@ {
                r is MapIds
            } else if text::begins(line@, "pid "@) {
                r is Continue
            } else if line@ == "ready"@ {
                match old(self).guest_pid {
                    Some(p) => r == SetupStep::Ready(p),
                    None => r matches SetupStep::Fail(e) && is_setup_error(
                        e,
                        "guest ready before pid was reported"@,
                    ),
                }
            } else if text::begins(line@, "warn "@) {
                r matches SetupStep::Warn(m) && m@ == "sbx: warning: "@ + line@.skip(5)
            } else if text::begins(line@, "err "@) {
                r matches SetupStep::Fail(e) && is_setup_error(e, line@.skip(4))
            } else {
                r is Continue
            },
    {
        proof {
            reveal_strlit("pid ");
            reveal_strlit("warn ");
            reveal_strlit("err ");
        }
        if same(line, "unshared") {
            return SetupStep::MapIds;
        }
        if let Some(rest) = strip_prefix(line, "pid ") {
            self.guest_pid = match parse_number(trim(rest), 10, u32::MAX as u64) {
                Some(n) => Some(n as u32),
                None => None,
            };
            return SetupStep::Continue;
        }
        if same(line, "ready") {
            return match self.guest_pid {
                Some(p) => SetupStep::Ready(p),
                None => SetupStep::Fail(setup_error("guest ready before pid was reported")),
            };
        }
        if let Some(rest) = strip_prefix(line, "warn ") {
            let mut m: String = copied("sbx: warning: ");
            m.append(rest);
            return SetupStep::Warn(m);
        }
        if let Some(rest) = strip_prefix(line, "err ") {
            return SetupStep::Fail(setup_error(rest));
        }
        SetupStep::Continue
    }
}

/// What it means that the setup process ended without a word, having written
/// `stderr`.
pub fn setup_ended(stderr: &str) -> (r: Error)
    ensures
        is_setup_error(
            r,
            "setup process exited before the guest was ready: "@ + text::trimmed(stderr@),
        ),
{
    let mut m: String = copied("setup process exited before the guest was ready: ");
    m.append(trim(stderr));
    setup_error(m.as_str())
}

/// What it means that setup took too long.
pub fn setup_timed_out() -> (r: Error)
    ensures
        is_setup_error(r, "sandbox setup timed out"@),
{
    setup_error("sandbox setup timed out")
}

/// What it means that the guest is gone right after setup.
pub fn guest_died() -> (r: Error)
    ensures
        is_setup_error(r, "guest died immediately after setup"@),
{
    setup_error("guest died immediately after setup")
}

/// What a failure to copy the snapshot's layer comes to.
pub fn seed_failed(e: &Error) -> (r: Error)
    ensures
        r.is_io_other("seed upper from snapshot"@, e.text()),
{
    Error::io_other("seed upper from snapshot", e.message().as_str())
}

// --- the whole ---------------------------------------------------------------

/// The step that a spawn is at.
#[derive(Debug, Clone, Copy, PartialEq, Eq, Structural)]
pub enum SpawnStage {
    /// Check the project directory.
    Validate,
    /// Draw an id.
    NewId,
    /// Create the state directory, which must not be there yet.
    MakeDir,
    /// Create the directories in it.
    MakeSubdirs,
    /// Take the sandbox's operation lock.
    Lock,
    /// Look the snapshot up.
    FindSnapshot,
    /// Copy the snapshot's layer.
    Seed,
    /// Record the sandbox.
    Insert,
    /// Create the cgroup.
    Cgroup,
    /// Record the cgroup.
    RecordCgroup,
    /// Remove the cgroup, which is not on record.
    DropCgroup,
    /// Start the setup process.
    StartSetup,
    /// Talk to it until the guest is ready.
    Drive,
    /// Read when the guest started.
    ReadStart,
    /// Record the guest's process.
    RecordPid,
    /// Record that the sandbox is ready.
    MarkReady,
    /// Done.
    Ready,
    /// Kill the guest, should there be one: its process is not on record.
    KillGuest,
    /// Remove the state directory, which no record tells of.
    Clear,
    /// Tear down what there is.
    RollBack,
    /// Failed.
    Failed,
}

/// The sandbox is on record at this stage.
pub open spec fn on_record(s: SpawnStage) -> bool {
    match s {
        SpawnStage::Cgroup | SpawnStage::RecordCgroup | SpawnStage::DropCgroup
        | SpawnStage::StartSetup | SpawnStage::Drive | SpawnStage::ReadStart
        | SpawnStage::RecordPid | SpawnStage::MarkReady | SpawnStage::Ready
        | SpawnStage::KillGuest | SpawnStage::RollBack => true,
        _ => false,
    }
}

/// There is a state directory of this sandbox at this stage, and no record
/// yet.
pub open spec fn off_record(s: SpawnStage) -> bool {
    match s {
        SpawnStage::MakeSubdirs | SpawnStage::Lock | SpawnStage::FindSnapshot | SpawnStage::Seed
        | SpawnStage::Insert | SpawnStage::Clear => true,
        _ => false,
    }
}

/// There may be a guest at this stage, whose process is not on record yet.
pub open spec fn unrecorded_guest(s: SpawnStage) -> bool {
    s == SpawnStage::Drive || s == SpawnStage::ReadStart || s == SpawnStage::RecordPid
}

/// The stage after `s`, which went well or not.
pub open spec fn spawn_after(
    s: SpawnStage,
    ok: bool,
    from_snapshot: bool,
    has_cgroup: bool,
) -> SpawnStage {
    match s {
        SpawnStage::Ready => SpawnStage::Ready,
        SpawnStage::RollBack | SpawnStage::Clear | SpawnStage::Failed => SpawnStage::Failed,
        SpawnStage::DropCgroup | SpawnStage::KillGuest => SpawnStage::RollBack,
        _ => if !ok {
            if s == SpawnStage::RecordCgroup {
                SpawnStage::DropCgroup
            } else if unrecorded_guest(s) {
                SpawnStage::KillGuest
            } else if on_record(s) {
                SpawnStage::RollBack
            } else if off_record(s) {
                SpawnStage::Clear
            } else {
                SpawnStage::Failed
            }
        } else {
            match s {
                SpawnStage::Validate => SpawnStage::NewId,
                SpawnStage::NewId => SpawnStage::MakeDir,
                SpawnStage::MakeDir => SpawnStage::MakeSubdirs,
                SpawnStage::MakeSubdirs => SpawnStage::Lock,
                SpawnStage::Lock => if from_snapshot {
                    SpawnStage::FindSnapshot
                } else {
                    SpawnStage::Insert
                },
                SpawnStage::FindSnapshot => SpawnStage::Seed,
                SpawnStage::Seed => SpawnStage::Insert,
                SpawnStage::Insert => SpawnStage::Cgroup,
                SpawnStage::Cgroup => if has_cgroup {
                    SpawnStage::RecordCgroup
                } else {
                    SpawnStage::StartSetup
                },
                SpawnStage::RecordCgroup => SpawnStage::StartSetup,
                SpawnStage::StartSetup => SpawnStage::Drive,
                SpawnStage::Drive => SpawnStage::ReadStart,
                SpawnStage::ReadStart => SpawnStage::RecordPid,
                SpawnStage::RecordPid => SpawnStage::MarkReady,
                _ => SpawnStage::Ready,
            }
        },
    }
}

/// The stage after `s`. Before there is a state directory a failure ends the
/// spawn; until the sandbox is on record, the directory is removed first;
/// afterwards everything that is on record is torn down again, and a cgroup or
/// a guest that is not is removed or killed before that.
pub fn spawn_next(s: SpawnStage, ok: bool, from_snapshot: bool, has_cgroup: bool) -> (r: SpawnStage)
    ensures
        r == spawn_after(s, ok, from_snapshot, has_cgroup),
        r == SpawnStage::NewId <==> s == SpawnStage::Validate && ok,
        r == SpawnStage::MakeDir <==> s == SpawnStage::NewId && ok,
        r == SpawnStage::MakeSubdirs <==> s == SpawnStage::MakeDir && ok,
        r == SpawnStage::Lock <==> s == SpawnStage::MakeSubdirs && ok,
        r == SpawnStage::FindSnapshot <==> s == SpawnStage::Lock && ok && from_snapshot,
        r == SpawnStage::Seed <==> s == SpawnStage::FindSnapshot && ok,
        r == SpawnStage::Insert <==> ok && (s == SpawnStage::Seed || (s == SpawnStage::Lock
            && !from_snapshot)),
        r == SpawnStage::Cgroup <==> s == SpawnStage::Insert && ok,
        r == SpawnStage::RecordCgroup <==> s == SpawnStage::Cgroup && ok && has_cgroup,
        r == SpawnStage::StartSetup <==> ok && (s == SpawnStage::RecordCgroup || (s
            == SpawnStage::Cgroup && !has_cgroup)),
        r == SpawnStage::Drive <==> s == SpawnStage::StartSetup && ok,
        r == SpawnStage::ReadStart <==> s == SpawnStage::Drive && ok,
        r == SpawnStage::RecordPid <==> s == SpawnStage::ReadStart && ok,
        r == SpawnStage::MarkReady <==> s == SpawnStage::RecordPid && ok,
        r == SpawnStage::Ready <==> s == SpawnStage::Ready || (s == SpawnStage::MarkReady && ok),
        r == SpawnStage::DropCgroup <==> s == SpawnStage::RecordCgroup && !ok,
        r == SpawnStage::KillGuest <==> !ok && (s == SpawnStage::Drive || s == SpawnStage::ReadStart
            || s == SpawnStage::RecordPid),
        r == SpawnStage::Clear <==> !ok && (s == SpawnStage::MakeSubdirs || s == SpawnStage::Lock || s
            == SpawnStage::FindSnapshot || s == SpawnStage::Seed || s == SpawnStage::Insert),
        r == SpawnStage::RollBack <==> s == SpawnStage::DropCgroup || s == SpawnStage::KillGuest || (
        !ok && (s == SpawnStage::Cgroup || s == SpawnStage::StartSetup || s
            == SpawnStage::MarkReady)),
{
    let recorded: bool = match s {
        SpawnStage::Cgroup => true,
        SpawnStage::StartSetup => true,
        SpawnStage::MarkReady => true,
        _ => false,
    };
    let running: bool = match s {
        SpawnStage::Drive => true,
        SpawnStage::ReadStart => true,
        SpawnStage::RecordPid => true,
        _ => false,
    };
    let begun: bool = match s {
        SpawnStage::MakeSubdirs => true,
        SpawnStage::Lock => true,
        SpawnStage::FindSnapshot => true,
        SpawnStage::Seed => true,
        SpawnStage::Insert => true,
        _ => false,
    };
    match s {
        SpawnStage::Ready => SpawnStage::Ready,
        SpawnStage::RollBack => SpawnStage::Failed,
        SpawnStage::Clear => SpawnStage::Failed,
        SpawnStage::Failed => SpawnStage::Failed,
        SpawnStage::DropCgroup => SpawnStage::RollBack,
        SpawnStage::KillGuest => SpawnStage::RollBack,
        SpawnStage::RecordCgroup if !ok => SpawnStage::DropCgroup,
        _ if !ok => if running {
            SpawnStage::KillGuest
        } else if recorded {
            SpawnStage::RollBack
        } else if begun {
            SpawnStage::Clear
        } else {
            SpawnStage::Failed
        },
        SpawnStage::Validate => SpawnStage::NewId,
        SpawnStage::NewId => SpawnStage::MakeDir,
        SpawnStage::MakeDir => SpawnStage::MakeSubdirs,
        SpawnStage::MakeSubdirs => SpawnStage::Lock,
        SpawnStage::Lock => if from_snapshot {
            SpawnStage::FindSnapshot
        } else {
            SpawnStage::Insert
        },
        SpawnStage::FindSnapshot => SpawnStage::Seed,
        SpawnStage::Seed => SpawnStage::Insert,
        SpawnStage::Insert => SpawnStage::Cgroup,
        SpawnStage::Cgroup => if has_cgroup {
            SpawnStage::RecordCgroup
        } else {
            SpawnStage::StartSetup
        },
        SpawnStage::RecordCgroup => SpawnStage::StartSetup,
        SpawnStage::StartSetup => SpawnStage::Drive,
        SpawnStage::Drive => SpawnStage::ReadStart,
        SpawnStage::ReadStart => SpawnStage::RecordPid,
        SpawnStage::RecordPid => SpawnStage::MarkReady,
        SpawnStage::MarkReady => SpawnStage::Ready,
    }
}

/// The stage that a spawn is at after steps with those outcomes.
pub open spec fn spawn_at(outcomes: Seq<bool>, from_snapshot: bool, has_cgroup: bool) -> SpawnStage
    decreases outcomes.len(),
{
    if outcomes.len() == 0 {
        SpawnStage::Validate
    } else {
        spawn_after(
            spawn_at(outcomes.drop_last(), from_snapshot, has_cgroup),
            outcomes.last(),
            from_snapshot,
            has_cgroup,
        )
    }
}

/// The step number `k` was to record the sandbox, and went well.
pub open spec fn recorded_at(
    outcomes: Seq<bool>,
    from_snapshot: bool,
    has_cgroup: bool,
    k: int,
) -> bool {
    0 <= k < outcomes.len() && outcomes[k] && spawn_at(
        outcomes.take(k),
        from_snapshot,
        has_cgroup,
    ) == SpawnStage::Insert
}

/// Nothing is set up, and nothing torn down, before the sandbox is on record:
/// a spawn cut short leaves a record by which it can be destroyed.
pub proof fn law_recorded_before_set_up(
    outcomes: Seq<bool>,
    from_snapshot: bool,
    has_cgroup: bool,
)
    requires
        on_record(spawn_at(outcomes, from_snapshot, has_cgroup)),
    ensures
        exists|k: int| recorded_at(outcomes, from_snapshot, has_cgroup, k),
    decreases outcomes.len(),
{
    let n = outcomes.len() as int;
    if n > 0 {
        let before = outcomes.drop_last();
        if on_record(spawn_at(before, from_snapshot, has_cgroup)) {
            law_recorded_before_set_up(before, from_snapshot, has_cgroup);
            let k = choose|k: int| recorded_at(before, from_snapshot, has_cgroup, k);
            assert(before.take(k) =~= outcomes.take(k));
            assert(recorded_at(outcomes, from_snapshot, has_cgroup, k));
        } else {
            assert(before =~= outcomes.take(n - 1));
            assert(recorded_at(outcomes, from_snapshot, has_cgroup, n - 1));
        }
    }
}

/// A spawn that fails after the sandbox went on record has torn it down.
pub proof fn law_failure_is_rolled_back(
    outcomes: Seq<bool>,
    from_snapshot: bool,
    has_cgroup: bool,
    k: int,
)
    requires
        spawn_at(outcomes, from_snapshot, has_cgroup) == SpawnStage::Failed,
        recorded_at(outcomes, from_snapshot, has_cgroup, k),
    ensures
        exists|j: int|
            k < j < outcomes.len() && spawn_at(
                #[trigger] outcomes.take(j),
                from_snapshot,
                has_cgroup,
            ) == SpawnStage::RollBack,
    decreases outcomes.len(),
{
    let n = outcomes.len() as int;
    let before = outcomes.drop_last();
    assert(before =~= outcomes.take(n - 1));
    if k == n - 1 {
        assert(spawn_at(outcomes, from_snapshot, has_cgroup) == SpawnStage::Cgroup);
    } else {
        assert(before.take(k) =~= outcomes.take(k));
        lemma_still_recorded(before, from_snapshot, has_cgroup, k);
        if spawn_at(before, from_snapshot, has_cgroup) == SpawnStage::Failed {
            law_failure_is_rolled_back(before, from_snapshot, has_cgroup, k);
            let j = choose|j: int|
                k < j < before.len() && spawn_at(
                    #[trigger] before.take(j),
                    from_snapshot,
                    has_cgroup,
                ) == SpawnStage::RollBack;
            assert(before.take(j) =~= outcomes.take(j));
        } else {
            assert(spawn_at(outcomes.take(n - 1), from_snapshot, has_cgroup)
                == SpawnStage::RollBack);
        }
    }
}

proof fn lemma_still_recorded(outcomes: Seq<bool>, from_snapshot: bool, has_cgroup: bool, k: int)
    requires
        recorded_at(outcomes, from_snapshot, has_cgroup, k),
    ensures
        ({
            let s = spawn_at(outcomes, from_snapshot, has_cgroup);
            on_record(s) || s == SpawnStage::Failed
        }),
    decreases outcomes.len(),
{
    let n = outcomes.len() as int;
    let before = outcomes.drop_last();
    assert(before =~= outcomes.take(n - 1));
    if k < n - 1 {
        assert(before.take(k) =~= outcomes.take(k));
        lemma_still_recorded(before, from_snapshot, has_cgroup, k);
    }
}

/// The step number `k` was to create the state directory, and went well.
pub open spec fn dir_made_at(
    outcomes: Seq<bool>,
    from_snapshot: bool,
    has_cgroup: bool,
    k: int,
) -> bool {
    0 <= k < outcomes.len() && outcomes[k] && spawn_at(
        outcomes.take(k),
        from_snapshot,
        has_cgroup,
    ) == SpawnStage::MakeDir
}

/// The step number `j` was to remove the state directory, on its own or with
/// everything else.
pub open spec fn cleared_at(
    outcomes: Seq<bool>,
    from_snapshot: bool,
    has_cgroup: bool,
    j: int,
) -> bool {
    0 <= j < outcomes.len() && ({
        let s = spawn_at(outcomes.take(j), from_snapshot, has_cgroup);
        s == SpawnStage::Clear || s == SpawnStage::RollBack
    })
}

/// A spawn that fails has removed the state directory that it made: none is
/// left without a record by which it could be destroyed.
pub proof fn law_no_directory_is_left(
    outcomes: Seq<bool>,
    from_snapshot: bool,
    has_cgroup: bool,
    k: int,
)
    requires
        spawn_at(outcomes, from_snapshot, has_cgroup) == SpawnStage::Failed,
        dir_made_at(outcomes, from_snapshot, has_cgroup, k),
    ensures
        exists|j: int| k < j && #[trigger] cleared_at(outcomes, from_snapshot, has_cgroup, j),
    decreases outcomes.len(),
{
    let n = outcomes.len() as int;
    let before = outcomes.drop_last();
    assert(before =~= outcomes.take(n - 1));
    if k < n - 1 {
        assert(before.take(k) =~= outcomes.take(k));
        lemma_dir_stays(before, from_snapshot, has_cgroup, k);
        if spawn_at(before, from_snapshot, has_cgroup) == SpawnStage::Failed {
            law_no_directory_is_left(before, from_snapshot, has_cgroup, k);
            let j = choose|j: int|
                k < j && #[trigger] cleared_at(before, from_snapshot, has_cgroup, j);
            assert(before.take(j) =~= outcomes.take(j));
            assert(cleared_at(outcomes, from_snapshot, has_cgroup, j));
        } else {
            assert(cleared_at(outcomes, from_snapshot, has_cgroup, n - 1));
        }
    }
}

proof fn lemma_dir_stays(outcomes: Seq<bool>, from_snapshot: bool, has_cgroup: bool, k: int)
    requires
        dir_made_at(outcomes, from_snapshot, has_cgroup, k),
    ensures
        ({
            let s = spawn_at(outcomes, from_snapshot, has_cgroup);
            on_record(s) || off_record(s) || s == SpawnStage::Failed
        }),
    decreases outcomes.len(),
{
    let n = outcomes.len() as int;
    let before = outcomes.drop_last();
    assert(before =~= outcomes.take(n - 1));
    if k < n - 1 {
        assert(before.take(k) =~= outcomes.take(k));
        lemma_dir_stays(before, from_snapshot, has_cgroup, k);
    }
}

/// A directory is removed on its own only where this spawn made it, and never
/// once the sandbox is on record.
pub proof fn law_only_own_directory_is_cleared(
    outcomes: Seq<bool>,
    from_snapshot: bool,
    has_cgroup: bool,
)
    requires
        off_record(spawn_at(outcomes, from_snapshot, has_cgroup)),
    ensures
        exists|k: int| dir_made_at(outcomes, from_snapshot, has_cgroup, k),
        forall|k: int| !recorded_at(outcomes, from_snapshot, has_cgroup, k),
    decreases outcomes.len(),
{
    let n = outcomes.len() as int;
    if n > 0 {
        let before = outcomes.drop_last();
        assert(before =~= outcomes.take(n - 1));
        if off_record(spawn_at(before, from_snapshot, has_cgroup)) {
            law_only_own_directory_is_cleared(before, from_snapshot, has_cgroup);
            let k = choose|k: int| dir_made_at(before, from_snapshot, has_cgroup, k);
            assert(before.take(k) =~= outcomes.take(k));
            assert(dir_made_at(outcomes, from_snapshot, has_cgroup, k));
        } else {
            assert(dir_made_at(outcomes, from_snapshot, has_cgroup, n - 1));
        }
        assert forall|k: int| !recorded_at(outcomes, from_snapshot, has_cgroup, k) by {
            if recorded_at(outcomes, from_snapshot, has_cgroup, k) {
                lemma_still_recorded(outcomes, from_snapshot, has_cgroup, k);
            }
        }
    }
}

/// The step number `k` was to create the cgroup, and made one.
pub open spec fn cgroup_made_at(outcomes: Seq<bool>, from_snapshot: bool, k: int) -> bool {
    0 <= k < outcomes.len() && outcomes[k] && spawn_at(outcomes.take(k), from_snapshot, true)
        == SpawnStage::Cgroup
}

/// The step number `j` saw to the cgroup: it went on record, by which tearing
/// down finds it, or was to be removed.
pub open spec fn cgroup_seen_to_at(outcomes: Seq<bool>, from_snapshot: bool, j: int) -> bool {
    0 <= j < outcomes.len() && ({
        let s = spawn_at(outcomes.take(j), from_snapshot, true);
        (s == SpawnStage::RecordCgroup && outcomes[j]) || s == SpawnStage::DropCgroup
    })
}

/// No cgroup is forgotten: before the setup process starts, and before
/// everything is torn down, the one that was made is on record or was removed.
pub proof fn law_no_cgroup_is_forgotten(outcomes: Seq<bool>, from_snapshot: bool, k: int)
    requires
        cgroup_made_at(outcomes, from_snapshot, k),
        ({
            let s = spawn_at(outcomes, from_snapshot, true);
            s != SpawnStage::RecordCgroup && s != SpawnStage::DropCgroup
        }),
    ensures
        exists|j: int| k < j && #[trigger] cgroup_seen_to_at(outcomes, from_snapshot, j),
    decreases outcomes.len(),
{
    let n = outcomes.len() as int;
    let before = outcomes.drop_last();
    assert(before =~= outcomes.take(n - 1));
    if k < n - 1 {
        assert(before.take(k) =~= outcomes.take(k));
        let s = spawn_at(before, from_snapshot, true);
        if s == SpawnStage::RecordCgroup || s == SpawnStage::DropCgroup {
            assert(cgroup_seen_to_at(outcomes, from_snapshot, n - 1));
        } else {
            law_no_cgroup_is_forgotten(before, from_snapshot, k);
            let j = choose|j: int|
                k < j && #[trigger] cgroup_seen_to_at(before, from_snapshot, j);
            assert(before.take(j) =~= outcomes.take(j));
            assert(cgroup_seen_to_at(outcomes, from_snapshot, j));
        }
    }
}

/// The step number `k` was to start the setup process, and went well.
pub open spec fn setup_started_at(
    outcomes: Seq<bool>,
    from_snapshot: bool,
    has_cgroup: bool,
    k: int,
) -> bool {
    0 <= k < outcomes.len() && outcomes[k] && spawn_at(
        outcomes.take(k),
        from_snapshot,
        has_cgroup,
    ) == SpawnStage::StartSetup
}

/// The step number `j` saw to the guest: its process went on record, by which
/// tearing down finds it, or it was to be killed.
pub open spec fn guest_seen_to_at(
    outcomes: Seq<bool>,
    from_snapshot: bool,
    has_cgroup: bool,
    j: int,
) -> bool {
    0 <= j < outcomes.len() && ({
        let s = spawn_at(outcomes.take(j), from_snapshot, has_cgroup);
        (s == SpawnStage::RecordPid && outcomes[j]) || s == SpawnStage::KillGuest
    })
}

/// No guest is forgotten: before the sandbox is ready, and before everything is
/// torn down, the guest's process is on record or was to be killed.
pub proof fn law_no_guest_is_forgotten(
    outcomes: Seq<bool>,
    from_snapshot: bool,
    has_cgroup: bool,
    k: int,
)
    requires
        setup_started_at(outcomes, from_snapshot, has_cgroup, k),
        ({
            let s = spawn_at(outcomes, from_snapshot, has_cgroup);
            !unrecorded_guest(s) && s != SpawnStage::KillGuest
        }),
    ensures
        exists|j: int|
            k < j && #[trigger] guest_seen_to_at(outcomes, from_snapshot, has_cgroup, j),
    decreases outcomes.len(),
{
    let n = outcomes.len() as int;
    let before = outcomes.drop_last();
    assert(before =~= outcomes.take(n - 1));
    if k < n - 1 {
        assert(before.take(k) =~= outcomes.take(k));
        let s = spawn_at(before, from_snapshot, has_cgroup);
        if unrecorded_guest(s) || s == SpawnStage::KillGuest {
            assert(guest_seen_to_at(outcomes, from_snapshot, has_cgroup, n - 1));
        } else {
            law_no_guest_is_forgotten(before, from_snapshot, has_cgroup, k);
            let j = choose|j: int|
                k < j && #[trigger] guest_seen_to_at(before, from_snapshot, has_cgroup, j);
            assert(before.take(j) =~= outcomes.take(j));
            assert(guest_seen_to_at(outcomes, from_snapshot, has_cgroup, j));
        }
    }
}

/// The step number `k` was to copy the snapshot's layer, and went well.
pub open spec fn seeded_at(outcomes: Seq<bool>, has_cgroup: bool, k: int) -> bool {
    0 <= k < outcomes.len() && outcomes[k] && spawn_at(outcomes.take(k), true, has_cgroup)
        == SpawnStage::Seed
}

/// A sandbox that is started from a snapshot goes on record only with the
/// snapshot's layer copied.
pub proof fn law_seeded_before_recorded(outcomes: Seq<bool>, has_cgroup: bool)
    requires
        ({
            let s = spawn_at(outcomes, true, has_cgroup);
            s == SpawnStage::Insert || on_record(s)
        }),
    ensures
        exists|k: int| seeded_at(outcomes, has_cgroup, k),
    decreases outcomes.len(),
{
    let n = outcomes.len() as int;
    if n > 0 {
        let before = outcomes.drop_last();
        assert(before =~= outcomes.take(n - 1));
        let s = spawn_at(before, true, has_cgroup);
        if s == SpawnStage::Seed {
            assert(seeded_at(outcomes, has_cgroup, n - 1));
        } else {
            law_seeded_before_recorded(before, has_cgroup);
            let k = choose|k: int| seeded_at(before, has_cgroup, k);
            assert(before.take(k) =~= outcomes.take(k));
            assert(seeded_at(outcomes, has_cgroup, k));
        }
    }
}

/// Steps that are left at most.
pub open spec fn steps_left(s: SpawnStage) -> int {
    match s {
        SpawnStage::Validate => 16,
        SpawnStage::NewId => 15,
        SpawnStage::MakeDir => 14,
        SpawnStage::MakeSubdirs => 13,
        SpawnStage::Lock => 12,
        SpawnStage::FindSnapshot => 11,
        SpawnStage::Seed => 10,
        SpawnStage::Insert => 9,
        SpawnStage::Cgroup => 8,
        SpawnStage::RecordCgroup => 7,
        SpawnStage::StartSetup => 6,
        SpawnStage::Drive => 5,
        SpawnStage::ReadStart => 4,
        SpawnStage::RecordPid => 3,
        SpawnStage::MarkReady => 2,
        SpawnStage::DropCgroup | SpawnStage::KillGuest => 2,
        SpawnStage::RollBack | SpawnStage::Clear => 1,
        SpawnStage::Ready | SpawnStage::Failed => 0,
    }
}

/// Every step brings a spawn closer to its end, and only one whose every step
/// went well ends ready.
pub proof fn law_spawn_ends(s: SpawnStage, ok: bool, from_snapshot: bool, has_cgroup: bool)
    ensures
        steps_left(s) > 0 ==> steps_left(spawn_after(s, ok, from_snapshot, has_cgroup))
            < steps_left(s),
        s != SpawnStage::Ready && spawn_after(s, ok, from_snapshot, has_cgroup) == SpawnStage::Ready
            ==> ok && s == SpawnStage::MarkReady,
{
}

} // verus!
