//! The tools that agents call: what a call asks for, and what it is answered.
//!
//! Answers are made for a program to read: typed fields, output cut to what a
//! model can take in, and failures that say what kind they are, whether trying
//! again can help, and what to do.

use vstd::prelude::*;

use crate::error::{Error, ExecErrorKind};
use crate::exec::{ExecEvent, ExecRequest};
use crate::limits::{ResourceLimits, TimeSpan};
use crate::output;
use crate::output::{clamp, push_capped};
use crate::proto::error_kind::TIMEOUT;
use crate::registry;
use crate::registry::Registry;
use crate::sql;
use crate::text;
use crate::text::{copied, decimal_text, same, starts_with};
use crate::types::{DiffEntry, DiffKind, Sandbox, SandboxSpec, SnapshotMeta};

verus! {

/// Tunables of the tool server.
#[derive(Debug, Clone, Copy, PartialEq, Eq, Structural)]
pub struct McpConfig {
    /// Host-side deadline of every tool call.
    pub call_timeout: TimeSpan,
    /// Maximum number of sandboxes that may exist at once.
    pub max_sandboxes: usize,
}

impl Default for McpConfig {
    fn default() -> (r: McpConfig)
        ensures
            r == (McpConfig { call_timeout: TimeSpan { secs: 300, nanos: 0 }, max_sandboxes: 8 }),
    {
        McpConfig { call_timeout: TimeSpan::from_secs(300), max_sandboxes: 8 }
    }
}

// --- failures ----------------------------------------------------------------

/// A failed call's answer.
#[derive(Debug)]
pub struct ToolError {
    /// What class of failure it is.
    pub error: &'static str,
    pub message: String,
    /// Whether trying again could help.
    pub retriable: bool,
    /// What to do about it.
    pub hint: String,
    /// The argument that was refused, by name and value.
    pub details: Option<(&'static str, String)>,
}

impl ToolError {
    /// This is a failure of class `error`, with `message` and `hint`.
    pub open spec fn says(
        self,
        error: Seq<char>,
        message: Seq<char>,
        retriable: bool,
        hint: Seq<char>,
    ) -> bool {
        self.error@ == error && self.message@ == message && self.retriable == retriable
            && self.hint@ == hint && self.details is None
    }
}

/// An answer says what class of failure it is, its message, whether trying again
/// could help, and what to do.
pub proof fn law_answer_is_its_parts(
    e: ToolError,
    error: Seq<char>,
    message: Seq<char>,
    retriable: bool,
    hint: Seq<char>,
)
    ensures
        e.says(error, message, retriable, hint) <==> e.error@ == error && e.message@ == message
            && e.retriable == retriable && e.hint@ == hint && e.details is None,
{
}

/// What to do about an argument that makes no sense.
pub const FIX_ARGUMENTS: &'static str = "fix the arguments and try again";

/// What to do about a registry that could not be read.
pub const RETRY_REGISTRY: &'static str = "the registry was busy or errored; retrying may help";

/// The class of an error.
pub open spec fn slug(e: Error) -> Seq<char> {
    match e {
        Error::NotFound { .. } => "not_found"@,
        Error::AlreadyExists { .. } => "already_exists"@,
        Error::InvalidSpec(_) => "invalid_spec"@,
        Error::WrongState { .. } => "wrong_state"@,
        Error::Unsupported(_) => "unsupported"@,
        Error::Protocol(_) => "protocol"@,
        Error::Exec { .. } => "exec_failed"@,
        Error::Registry(_) => "registry"@,
        Error::Io { .. } => "io"@,
    }
}

/// Trying again could help.
pub open spec fn worth_retrying(e: Error) -> bool {
    match e {
        Error::Exec { kind, .. } => kind == ExecErrorKind::Timeout,
        Error::Registry(_) | Error::Io { .. } => true,
        _ => false,
    }
}

/// What to do about an error.
pub open spec fn advice(e: Error) -> Seq<char> {
    match e {
        Error::NotFound { kind, .. } => "no such "@ + kind.word()
            + "; call sandbox_list to see what exists"@,
        Error::AlreadyExists { kind, .. } => "a "@ + kind.word()
            + " with that name already exists; pick another name"@,
        Error::InvalidSpec(_) => FIX_ARGUMENTS@,
        Error::WrongState { op, state, .. } => "cannot "@ + op@ + " a sandbox in state "@
            + state.name() + "; inspect it with sandbox_list"@,
        Error::Unsupported(_) =>
        "this host lacks a required kernel facility; the message names the knob"@,
        Error::Protocol(_) =>
        "the sandbox's guest agent misbehaved; destroy and recreate the sandbox"@,
        Error::Exec { .. } =>
        "the command could not be run; check the program name, cwd, and timeout"@,
        Error::Registry(_) => RETRY_REGISTRY@,
        Error::Io { op, .. } => "an OS operation ("@ + op@ + ") failed; the message has details"@,
    }
}

fn slug_of(e: &Error) -> (r: &'static str)
    ensures
        r@ == slug(*e),
{
    match e {
        Error::NotFound { kind: _, id: _ } => "not_found",
        Error::AlreadyExists { kind: _, id: _ } => "already_exists",
        Error::InvalidSpec(_) => "invalid_spec",
        Error::WrongState { id: _, state: _, op: _ } => "wrong_state",
        Error::Unsupported(_) => "unsupported",
        Error::Protocol(_) => "protocol",
        Error::Exec { kind: _, message: _ } => "exec_failed",
        Error::Registry(_) => "registry",
        Error::Io { op: _, source: _ } => "io",
    }
}

fn advice_on(e: &Error) -> (r: String)
    ensures
        r@ == advice(*e),
{
    match e {
        Error::NotFound { kind, id: _ } => {
            let mut m: String = copied("no such ");
            m.append(kind.as_str());
            m.append("; call sandbox_list to see what exists");
            m
        },
        Error::AlreadyExists { kind, id: _ } => {
            let mut m: String = copied("a ");
            m.append(kind.as_str());
            m.append(" with that name already exists; pick another name");
            m
        },
        Error::InvalidSpec(_) => copied(FIX_ARGUMENTS),
        Error::WrongState { id: _, state, op } => {
            let mut m: String = copied("cannot ");
            m.append(op);
            m.append(" a sandbox in state ");
            m.append(state.variant());
            m.append("; inspect it with sandbox_list");
            m
        },
        Error::Unsupported(_) => copied(
            "this host lacks a required kernel facility; the message names the knob",
        ),
        Error::Protocol(_) => copied(
            "the sandbox's guest agent misbehaved; destroy and recreate the sandbox",
        ),
        Error::Exec { kind: _, message: _ } => copied(
            "the command could not be run; check the program name, cwd, and timeout",
        ),
        Error::Registry(_) => copied(RETRY_REGISTRY),
        Error::Io { op, source: _ } => {
            let mut m: String = copied("an OS operation (");
            m.append(op);
            m.append(") failed; the message has details");
            m
        },
    }
}

/// The answer for an error: its class, its message, whether trying again could
/// help, and what to do.
pub fn error_object(e: &Error) -> (r: ToolError)
    ensures
        r.says(slug(*e), e.text(), worth_retrying(*e), advice(*e)),
        r.message@ == e.text(),
        r.details is None,
        r.retriable <==> *e is Registry || *e is Io || (*e matches Error::Exec { kind, .. } && kind
            == ExecErrorKind::Timeout),
        match *e {
            Error::NotFound { kind, .. } => r.error@ == "not_found"@ && r.hint@ == "no such "@
                + kind.word() + "; call sandbox_list to see what exists"@,
            Error::AlreadyExists { kind, .. } => r.error@ == "already_exists"@ && r.hint@ == "a "@
                + kind.word() + " with that name already exists; pick another name"@,
            Error::InvalidSpec(_) => r.error@ == "invalid_spec"@ && r.hint@
                == "fix the arguments and try again"@,
            Error::WrongState { op, state, .. } => r.error@ == "wrong_state"@ && r.hint@
                == "cannot "@ + op@ + " a sandbox in state "@ + state.name()
                + "; inspect it with sandbox_list"@,
            Error::Unsupported(_) => r.error@ == "unsupported"@ && r.hint@
                == "this host lacks a required kernel facility; the message names the knob"@,
            Error::Protocol(_) => r.error@ == "protocol"@ && r.hint@
                == "the sandbox's guest agent misbehaved; destroy and recreate the sandbox"@,
            Error::Exec { .. } => r.error@ == "exec_failed"@ && r.hint@
                == "the command could not be run; check the program name, cwd, and timeout"@,
            Error::Registry(_) => r.error@ == "registry"@ && r.hint@
                == "the registry was busy or errored; retrying may help"@,
            Error::Io { op, .. } => r.error@ == "io"@ && r.hint@ == "an OS operation ("@ + op@
                + ") failed; the message has details"@,
        },
{
    let retriable: bool = match e {
        Error::Exec { kind, message: _ } => match kind {
            ExecErrorKind::Timeout => true,
            _ => false,
        },
        Error::Registry(_) => true,
        Error::Io { op: _, source: _ } => true,
        _ => false,
    };
    ToolError {
        error: slug_of(e),
        message: e.message(),
        retriable,
        hint: advice_on(e),
        details: None,
    }
}

/// The answer to an argument that makes no sense.
pub fn invalid(message: &str, details: Option<(&'static str, String)>) -> (r: ToolError)
    ensures
        r.error@ == "invalid_argument"@,
        r.message@ == message@,
        !r.retriable,
        r.hint@ == "fix the arguments and try again"@,
        r.details == details,
{
    ToolError {
        error: "invalid_argument",
        message: copied(message),
        retriable: false,
        hint: copied(FIX_ARGUMENTS),
        details,
    }
}

/// The answer to a call that missed the host's deadline.
pub fn call_timed_out(cfg: &McpConfig) -> (r: ToolError)
    ensures
        r.says(
            "timeout"@,
            "operation exceeded the host call deadline of "@ + text::decimal(
                cfg.call_timeout.secs as nat,
            ) + "s"@,
            true,
            "raise --call-timeout on `sbx mcp`, or split the work into smaller steps"@,
        ),
{
    let mut m: String = copied("operation exceeded the host call deadline of ");
    m.append(decimal_text(cfg.call_timeout.secs).as_str());
    m.append("s");
    ToolError {
        error: "timeout",
        message: m,
        retriable: true,
        hint: copied("raise --call-timeout on `sbx mcp`, or split the work into smaller steps"),
        details: None,
    }
}

/// What is answered where the sandboxes could not be counted: no permission.
pub open spec fn uncounted(r: Result<(), ToolError>) -> bool {
    r matches Err(e) && e.says(
        "registry"@,
        "could not read the sandbox registry to check the quota"@,
        true,
        RETRY_REGISTRY@,
    )
}

/// What is answered where there are `n` sandboxes: permission as long as there
/// are fewer than the maximum.
pub open spec fn counted(cfg: McpConfig, n: nat, r: Result<(), ToolError>) -> bool {
    if n < cfg.max_sandboxes {
        r is Ok
    } else {
        r matches Err(e) && e.says(
            "quota_exceeded"@,
            "at the max of "@ + text::decimal(cfg.max_sandboxes as nat) + " concurrent sandboxes ("@
                + text::decimal(n) + " exist)"@,
            true,
            "destroy an unused sandbox with sandbox_destroy, or raise --max-sandboxes on `sbx mcp`"@,
        )
    }
}

/// Whether another sandbox may be created, given how many there are; `None`
/// where that could not be found out, which is no permission.
pub fn check_quota(cfg: &McpConfig, count: Option<usize>) -> (r: Result<(), ToolError>)
    ensures
        match count {
            None => uncounted(r),
            Some(n) => counted(*cfg, n as nat, r),
        },
        r is Ok <==> (count matches Some(n) && n < cfg.max_sandboxes),
        r matches Err(e) ==> e.retriable && e.error@ == (if count is Some {
            "quota_exceeded"@
        } else {
            "registry"@
        }),
        count is None ==> (r matches Err(e) && e.message@
            == "could not read the sandbox registry to check the quota"@ && e.hint@
            == "the registry was busy or errored; retrying may help"@),
        (count matches Some(n) && r is Err) ==> (r matches Err(e) && e.message@ == "at the max of "@
            + text::decimal(cfg.max_sandboxes as nat) + " concurrent sandboxes ("@ + text::decimal(
            count->0 as nat,
        ) + " exist)"@ && e.hint@
            == "destroy an unused sandbox with sandbox_destroy, or raise --max-sandboxes on `sbx mcp`"@),
{
    let n: usize = match count {
        Some(n) => n,
        None => {
            return Err(
                ToolError {
                    error: "registry",
                    message: copied("could not read the sandbox registry to check the quota"),
                    retriable: true,
                    hint: copied(RETRY_REGISTRY),
                    details: None,
                },
            );
        },
    };
    if n < cfg.max_sandboxes {
        return Ok(());
    }
    let mut m: String = copied("at the max of ");
    m.append(decimal_text(cfg.max_sandboxes as u64).as_str());
    m.append(" concurrent sandboxes (");
    m.append(decimal_text(n as u64).as_str());
    m.append(" exist)");
    Err(
        ToolError {
            error: "quota_exceeded",
            message: m,
            retriable: true,
            hint: copied(
                "destroy an unused sandbox with sandbox_destroy, or raise --max-sandboxes on `sbx mcp`",
            ),
            details: None,
        },
    )
}

/// Whether another sandbox may be created, by what the registry lists.
pub fn check_registry_quota(reg: &mut Registry, cfg: &McpConfig) -> (r: Result<(), ToolError>)
    ensures
        final(reg).same_kind(*old(reg)),
        old(reg).found(final(reg).tables()),
        r is Ok && final(reg).laid_out() ==> final(reg).tables().sandboxes.dom().len()
            < cfg.max_sandboxes,
        uncounted(r) || exists|n: nat| #[trigger]
            counted(*cfg, n, r) && (final(reg).laid_out() ==> n
                == final(reg).tables().sandboxes.dom().len()),
{
    match reg.list_sandboxes() {
        Ok(list) => {
            proof {
                if reg.laid_out() {
                    registry::law_sandboxes_are_listed_once(reg.tables().sandboxes, list@);
                }
            }
            check_quota(cfg, Some(list.len()))
        },
        Err(_) => check_quota(cfg, None),
    }
}

/// One sandbox at a time, created with permission, never makes more than the
/// maximum.
pub proof fn law_quota_holds(
    cfg: McpConfig,
    r: Result<(), ToolError>,
    t: sql::Tables,
    id: Seq<char>,
    record: sql::SandboxRecord,
)
    requires
        t.sandboxes.dom().finite(),
        counted(cfg, t.sandboxes.dom().len(), r),
        r is Ok,
    ensures
        sql::with_sandbox(t, id, record).sandboxes.dom().len() <= cfg.max_sandboxes,
        t.sandboxes.dom().len() < cfg.max_sandboxes,
{
    assert(sql::with_sandbox(t, id, record).sandboxes.dom() =~= t.sandboxes.dom().insert(id));
}

// --- creating ----------------------------------------------------------------

/// The arguments of `sandbox_create`.
#[derive(Debug)]
pub struct CreateArgs {
    pub project_dir: String,
    pub name: Option<String>,
    pub memory_max: Option<u64>,
    pub cpu_millis: Option<u32>,
    pub pids_max: Option<u32>,
    pub network: bool,
    pub env: Vec<(String, String)>,
}

/// What to start for `sandbox_create`. The project's directory must be
/// absolute; the host's `/proc` is never let in.
pub fn create_spec(args: CreateArgs) -> (r: Result<SandboxSpec, ToolError>)
    ensures
        if text::begins(args.project_dir@, "/"@) {
            &&& r matches Ok(s)
            &&& s.name == args.name
            &&& s.rootfs == args.project_dir
            &&& s.from_snapshot is None
            &&& s.limits == (ResourceLimits {
                cpu_millis: args.cpu_millis,
                memory_bytes: args.memory_max,
                pids: args.pids_max,
                disk_bytes: None,
                wall_time: None,
            })
            &&& s.env == args.env
            &&& s.network == args.network
            &&& !s.allow_host_proc_fallback
        } else {
            &&& r matches Err(e)
            &&& e.error@ == "invalid_argument"@
            &&& e.message@ == "project_dir must be an absolute path"@
            &&& !e.retriable
            &&& e.hint@ == "fix the arguments and try again"@
            &&& e.details matches Some(d)
            &&& d.0@ == "project_dir"@
            &&& d.1@ == args.project_dir@
        },
{
    if !starts_with(args.project_dir.as_str(), "/") {
        return Err(
            invalid(
                "project_dir must be an absolute path",
                Some(("project_dir", args.project_dir)),
            ),
        );
    }
    Ok(
        SandboxSpec {
            name: args.name,
            rootfs: args.project_dir,
            from_snapshot: None,
            limits: ResourceLimits {
                cpu_millis: args.cpu_millis,
                memory_bytes: args.memory_max,
                pids: args.pids_max,
                disk_bytes: None,
                wall_time: None,
            },
            env: args.env,
            network: args.network,
            allow_host_proc_fallback: false,
        },
    )
}

/// A sandbox as tools show it.
#[derive(Debug)]
pub struct SandboxInfo {
    pub id: String,
    pub name: Option<String>,
    pub state: &'static str,
    pub project_dir: String,
    pub created_at: i64,
}

/// A sandbox as tools show it.
pub fn sandbox_info(sb: &Sandbox) -> (r: SandboxInfo)
    ensures
        r.id@ == sb@.id,
        text::opt_view(r.name) == sb@.name,
        r.state@ == sb@.state.word(),
        r.project_dir@ == sb@.rootfs,
        r.created_at == sb@.created_at,
{
    SandboxInfo {
        id: sb.id.0.clone(),
        name: match &sb.name {
            Some(n) => Some(n.clone()),
            None => None,
        },
        state: sb.state.as_str(),
        project_dir: sb.rootfs.clone(),
        created_at: sb.created_at,
    }
}

/// A snapshot as tools show it.
#[derive(Debug)]
pub struct SnapshotInfo {
    pub id: String,
    pub name: String,
    pub sandbox_id: Option<String>,
    pub size_bytes: u64,
    pub created_at: i64,
}

/// A snapshot as tools show it.
pub fn snapshot_info(s: &SnapshotMeta) -> (r: SnapshotInfo)
    ensures
        r.id@ == s@.id,
        r.name@ == s@.name,
        text::opt_view(r.sandbox_id) == s@.sandbox_id,
        r.size_bytes == s@.size_bytes,
        r.created_at == s@.created_at,
{
    SnapshotInfo {
        id: s.id.0.clone(),
        name: s.name.clone(),
        sandbox_id: match &s.sandbox_id {
            Some(x) => Some(x.0.clone()),
            None => None,
        },
        size_bytes: s.size_bytes,
        created_at: s.created_at,
    }
}

/// What is added to the answer of `sandbox_snapshot`.
pub const SNAPSHOT_NOTE: &'static str = "snapshots capture files, not processes; re-run anything that was running after a restore";

// --- running -----------------------------------------------------------------

/// A command's deadline where the caller sets none, in milliseconds.
pub const DEFAULT_EXEC_TIMEOUT_MS: u64 = 120_000;

/// The smaller of two numbers.
pub open spec fn least(a: int, b: int) -> int {
    if a < b {
        a
    } else {
        b
    }
}

/// The latest deadline inside the sandbox, in milliseconds: fifteen seconds
/// before the host's, but no less than one second; half a second where the
/// host's is one second.
pub open spec fn guest_ceiling(host_secs: int) -> int {
    if host_secs - 15 > 1 {
        (host_secs - 15) * 1000
    } else if host_secs == 1 {
        500
    } else {
        1000
    }
}

/// The deadline inside the sandbox: what was asked for, but early enough that
/// the command is killed cleanly before the host's deadline.
pub fn guest_timeout(requested: Option<u64>, host_secs: u64) -> (r: u64)
    requires
        guest_ceiling(host_secs as int) <= u64::MAX,
    ensures
        r == least(
            match requested {
                Some(t) => t as int,
                None => DEFAULT_EXEC_TIMEOUT_MS as int,
            },
            guest_ceiling(host_secs as int),
        ),
        host_secs >= 1 ==> r < host_secs * 1000,
        requested matches Some(t) ==> r <= t,
        requested is None ==> r <= 120_000,
        host_secs > 16 ==> r <= (host_secs - 15) * 1000,
        host_secs != 1 && host_secs <= 16 ==> r <= 1000,
        host_secs == 1 ==> r <= 500,
        requested matches Some(t) ==> (host_secs > 16 && t <= (host_secs - 15) * 1000 || host_secs
            != 1 && t <= 1000 || t <= 500) ==> r == t,
        host_secs >= 135 && requested is None ==> r == 120_000,
        host_secs > 16 && (requested matches Some(t) && t > (host_secs - 15) * 1000) ==> r == (
        host_secs - 15) * 1000,
        16 < host_secs < 135 && requested is None ==> r == (host_secs - 15) * 1000,
        host_secs != 1 && host_secs <= 16 && (requested is None || requested->0 >= 1000) ==> r == 1000,
        host_secs == 1 && (requested is None || requested->0 >= 500) ==> r == 500,
{
    let ceiling: u64 = if host_secs > 16 {
        (host_secs - 15) * 1000
    } else if host_secs == 1 {
        500
    } else {
        1000
    };
    let wanted: u64 = match requested {
        Some(t) => t,
        None => DEFAULT_EXEC_TIMEOUT_MS,
    };
    if wanted < ceiling {
        wanted
    } else {
        ceiling
    }
}

/// What a caller asks for is what the command gets, as long as it leaves fifteen
/// seconds before the host's deadline; else the command gets all but those.
pub proof fn law_requested_deadline_is_kept(requested: int, host_secs: int)
    requires
        host_secs > 16,
        0 <= requested,
    ensures
        requested + 15_000 <= host_secs * 1000 ==> least(requested, guest_ceiling(host_secs))
            == requested,
        requested + 15_000 > host_secs * 1000 ==> least(requested, guest_ceiling(host_secs))
            + 15_000 == host_secs * 1000,
{
}

/// The deadline inside the sandbox comes before the host's.
pub proof fn law_guest_deadline_comes_first(requested: int, host_secs: int)
    requires
        host_secs >= 1,
    ensures
        least(requested, guest_ceiling(host_secs)) < host_secs * 1000,
{
}

/// The arguments of `sandbox_exec`, but for the sandbox.
#[derive(Debug)]
pub struct ExecArgs {
    pub command: Vec<String>,
    pub cwd: Option<String>,
    pub timeout_ms: Option<u64>,
    pub env: Vec<(String, String)>,
}

/// A call without a command is refused before anything is looked up.
pub fn check_command(args: &ExecArgs) -> (r: Result<(), ToolError>)
    ensures
        if args.command@.len() == 0 {
            r matches Err(e) && e.says(
                "invalid_argument"@,
                "command must have at least one element"@,
                false,
                "fix the arguments and try again"@,
            )
        } else {
            r is Ok
        },
{
    if args.command.len() == 0 {
        Err(invalid("command must have at least one element", None))
    } else {
        Ok(())
    }
}

/// What to run for `sandbox_exec`.
pub fn exec_request(args: ExecArgs, cfg: &McpConfig) -> (r: ExecRequest)
    requires
        guest_ceiling(cfg.call_timeout.secs as int) <= u64::MAX,
    ensures
        r.argv == args.command,
        r.env == args.env,
        r.cwd == args.cwd,
        r.timeout_ms matches Some(t) && t == least(
            match args.timeout_ms {
                Some(t) => t as int,
                None => DEFAULT_EXEC_TIMEOUT_MS as int,
            },
            guest_ceiling(cfg.call_timeout.secs as int),
        ),
        cfg.call_timeout.secs >= 1 ==> (r.timeout_ms matches Some(t) && t < cfg.call_timeout.secs
            * 1000),
        cfg.call_timeout.secs > 16 && (args.timeout_ms matches Some(t) && t <= (
        cfg.call_timeout.secs - 15) * 1000) ==> r.timeout_ms == args.timeout_ms,
        cfg.call_timeout.secs >= 135 && args.timeout_ms is None ==> r.timeout_ms == Some(120_000u64),
{
    let ms: u64 = guest_timeout(args.timeout_ms, cfg.call_timeout.secs);
    ExecRequest { argv: args.command, env: args.env, cwd: args.cwd, timeout_ms: Some(ms) }
}

/// What is known of a command that runs.
#[derive(Debug)]
pub struct Collector {
    pub stdout: Vec<u8>,
    pub stderr: Vec<u8>,
    pub code: Option<i32>,
    pub signal: Option<i32>,
    /// Kind and message of the failure to run it.
    pub failure: Option<(String, String)>,
}

/// Why a command could not be run.
#[derive(Debug)]
pub struct ExecFailure {
    pub error: String,
    pub message: String,
    /// Whether trying again could help: only where the command was too slow.
    pub retriable: bool,
    pub timed_out: bool,
    /// What to do about it.
    pub hint: &'static str,
}

/// The answer to `sandbox_exec`; a failed call where `failure` is there.
#[derive(Debug)]
pub struct ExecReply {
    pub exit_code: Option<i32>,
    pub duration_ms: u64,
    pub stdout: String,
    pub stderr: String,
    pub signal: Option<i32>,
    pub failure: Option<ExecFailure>,
}

impl Collector {
    /// Nothing is known yet.
    pub fn new() -> (r: Collector)
        ensures
            r.stdout@ == Seq::<u8>::empty(),
            r.stderr@ == Seq::<u8>::empty(),
            r.code is None,
            r.signal is None,
            r.failure is None,
    {
        Collector {
            stdout: Vec::new(),
            stderr: Vec::new(),
            code: None,
            signal: None,
            failure: None,
        }
    }

    /// Takes note of an event; says whether it was the last.
    pub fn on_event(&mut self, e: ExecEvent) -> (r: bool)
        ensures
            r == e.terminal(),
            r <==> e is Exited || e is Failed,
            final(self).stdout@ == match e {
                ExecEvent::Stdout(d) => output::captured(old(self).stdout@, d@),
                _ => old(self).stdout@,
            },
            final(self).stderr@ == match e {
                ExecEvent::Stderr(d) => output::captured(old(self).stderr@, d@),
                _ => old(self).stderr@,
            },
            final(self).code == match e {
                ExecEvent::Exited { code, .. } => code,
                _ => old(self).code,
            },
            final(self).signal == match e {
                ExecEvent::Exited { signal, .. } => signal,
                _ => old(self).signal,
            },
            final(self).failure == match e {
                ExecEvent::Failed { kind, message } => Some((kind, message)),
                _ => old(self).failure,
            },
    {
        match e {
            ExecEvent::Started { pid: _ } => false,
            ExecEvent::Stdout(d) => {
                push_capped(&mut self.stdout, d.as_slice());
                false
            },
            ExecEvent::Stderr(d) => {
                push_capped(&mut self.stderr, d.as_slice());
                false
            },
            ExecEvent::Exited { code, signal } => {
                self.code = code;
                self.signal = signal;
                true
            },
            ExecEvent::Failed { kind, message } => {
                self.failure = Some((kind, message));
                true
            },
        }
    }

    /// The answer, once the command has ended.
    pub fn finish(self, duration_ms: u64) -> (r: ExecReply)
        ensures
            r.exit_code == self.code,
            r.duration_ms == duration_ms,
            r.stdout@ == output::clamped(self.stdout@),
            r.stderr@ == output::clamped(self.stderr@),
            r.stdout@ == output::clamped_bytes(
                output::clamped_lines(text::lossy_utf8(self.stdout@)),
            ),
            r.stderr@ == output::clamped_bytes(
                output::clamped_lines(text::lossy_utf8(self.stderr@)),
            ),
            r.signal == self.signal,
            match self.failure {
                None => r.failure is None,
                Some(f) => r.failure matches Some(x) && x.error@ == f.0@ && x.message@ == f.1@
                    && x.retriable == (f.0@ == "timeout"@) && x.timed_out == (f.0@ == "timeout"@)
                    && x.hint@ == (if f.0@ == "timeout"@ {
                    "the command hit its timeout_ms; raise it or make the command faster"@
                } else {
                    "the command could not be started; check the program name and cwd"@
                }),
            },
    {
        let stdout: String = clamp(self.stdout.as_slice());
        let stderr: String = clamp(self.stderr.as_slice());
        let failure: Option<ExecFailure> = match self.failure {
            None => None,
            Some((kind, message)) => {
                let timed_out: bool = same(kind.as_str(), TIMEOUT);
                let hint: &'static str = if timed_out {
                    "the command hit its timeout_ms; raise it or make the command faster"
                } else {
                    "the command could not be started; check the program name and cwd"
                };
                Some(ExecFailure { error: kind, message, retriable: timed_out, timed_out, hint })
            },
        };
        ExecReply {
            exit_code: self.code,
            duration_ms,
            stdout,
            stderr,
            signal: self.signal,
            failure,
        }
    }
}

// --- looking -----------------------------------------------------------------

/// How many of the changes are of that kind.
pub open spec fn count_of(v: Seq<DiffEntry>, kind: DiffKind) -> nat
    decreases v.len(),
{
    if v.len() == 0 {
        0
    } else if v.last().kind == kind {
        count_of(v.drop_last(), kind) + 1
    } else {
        count_of(v.drop_last(), kind)
    }
}

/// How many changes there are of each kind.
#[derive(Debug, Clone, Copy, PartialEq, Eq, Structural)]
pub struct ChangeCounts {
    pub added: usize,
    pub modified: usize,
    pub deleted: usize,
}

/// Every change is of one of three kinds.
pub proof fn law_changes_are_counted(v: Seq<DiffEntry>)
    ensures
        count_of(v, DiffKind::Added) + count_of(v, DiffKind::Modified) + count_of(
            v,
            DiffKind::Deleted,
        ) == v.len(),
    decreases v.len(),
{
    if v.len() > 0 {
        law_changes_are_counted(v.drop_last());
    }
}

/// One more change counts once, under its own kind.
pub proof fn law_each_change_counts_once(v: Seq<DiffEntry>, e: DiffEntry, kind: DiffKind)
    ensures
        count_of(v.push(e), kind) == count_of(v, kind) + if e.kind == kind {
            1nat
        } else {
            0
        },
        count_of(Seq::empty(), kind) == 0,
{
    assert(v.push(e).drop_last() =~= v);
}

/// How many changes there are of each kind.
pub fn count_changes(v: &Vec<DiffEntry>) -> (r: ChangeCounts)
    ensures
        r.added == count_of(v@, DiffKind::Added),
        r.modified == count_of(v@, DiffKind::Modified),
        r.deleted == count_of(v@, DiffKind::Deleted),
{
    let mut c: ChangeCounts = ChangeCounts { added: 0, modified: 0, deleted: 0 };
    let mut i: usize = 0;
    assert(v@.take(0) =~= Seq::<DiffEntry>::empty());
    while i < v.len()
        invariant
            i <= v@.len(),
            c.added == count_of(v@.take(i as int), DiffKind::Added),
            c.modified == count_of(v@.take(i as int), DiffKind::Modified),
            c.deleted == count_of(v@.take(i as int), DiffKind::Deleted),
        decreases v@.len() - i,
    {
        proof {
            law_changes_are_counted(v@.take(i as int));
            assert(v@.take(i + 1).drop_last() =~= v@.take(i as int));
            assert(v@.take(i + 1).last() == v@[i as int]);
        }
        match v[i].kind {
            DiffKind::Added => {
                c.added = c.added + 1;
            },
            DiffKind::Modified => {
                c.modified = c.modified + 1;
            },
            DiffKind::Deleted => {
                c.deleted = c.deleted + 1;
            },
        }
        i += 1;
    }
    assert(v@.take(i as int) =~= v@);
    c
}

} // verus!
