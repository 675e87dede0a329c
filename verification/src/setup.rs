//! Setting a sandbox up: namespaces, file system, and the guest as PID 1.
//!
//! The setup process enters a user namespace and says `unshared`, waits for
//! `go`, builds the rest, and says `pid` and the guest's process number; the
//! guest says `ready`. A failure is said as `err` and why.

use vstd::prelude::*;

use crate::diff::FileKind;
use crate::error::Error;
use crate::guest::GuestConfig;
use crate::helpers;
use crate::layout::{INSIDE_RT_DIR, LOG_NAME, SOCKET_NAME};
use crate::paths;
use crate::paths::{join, strip_slashes};
use crate::spawn;
use crate::spawn::SetupConfig;
use crate::text;
use crate::text::{copied, copied_pairs, decimal_text, starts_with};

verus! {

// --- the course of setup -----------------------------------------------------

/// The step that setup is at.
#[derive(Debug, Clone, Copy, PartialEq, Eq, Structural)]
pub enum SetupStage {
    /// Enter a user namespace.
    UnshareUser,
    /// Say so to the host.
    Announce,
    /// Wait until the host has written the id maps.
    AwaitGo,
    /// Enter the other namespaces.
    Unshare,
    /// Bring the loopback device up.
    Loopback,
    /// Set the host name.
    Hostname,
    /// Put the file system together.
    BuildRoot,
    /// Fork the guest.
    Fork,
    /// Done.
    Done,
    /// Failed.
    Failed,
}

/// The stage after `s`, which went well or not.
pub open spec fn setup_after(s: SetupStage, ok: bool, host_network: bool) -> SetupStage {
    if s == SetupStage::Done {
        s
    } else if !ok {
        SetupStage::Failed
    } else {
        match s {
            SetupStage::UnshareUser => SetupStage::Announce,
            SetupStage::Announce => SetupStage::AwaitGo,
            SetupStage::AwaitGo => SetupStage::Unshare,
            SetupStage::Unshare => if host_network {
                SetupStage::Hostname
            } else {
                SetupStage::Loopback
            },
            SetupStage::Loopback => SetupStage::Hostname,
            SetupStage::Hostname => SetupStage::BuildRoot,
            SetupStage::BuildRoot => SetupStage::Fork,
            SetupStage::Fork | SetupStage::Done => SetupStage::Done,
            SetupStage::Failed => SetupStage::Failed,
        }
    }
}

/// The stage after `s`.
pub fn setup_next(s: SetupStage, ok: bool, host_network: bool) -> (r: SetupStage)
    ensures
        r == setup_after(s, ok, host_network),
        s != SetupStage::Done && !ok ==> r == SetupStage::Failed,
        r == SetupStage::Failed ==> !ok || s == SetupStage::Failed,
        r == SetupStage::Announce <==> s == SetupStage::UnshareUser && ok,
        r == SetupStage::AwaitGo <==> s == SetupStage::Announce && ok,
        r == SetupStage::Unshare <==> s == SetupStage::AwaitGo && ok,
        r == SetupStage::Loopback <==> s == SetupStage::Unshare && ok && !host_network,
        r == SetupStage::Hostname <==> ok && (s == SetupStage::Loopback || (s
            == SetupStage::Unshare && host_network)),
        r == SetupStage::BuildRoot <==> s == SetupStage::Hostname && ok,
        r == SetupStage::Fork <==> s == SetupStage::BuildRoot && ok,
        r == SetupStage::Done <==> s == SetupStage::Done || (s == SetupStage::Fork && ok),
{
    match s {
        SetupStage::Done => SetupStage::Done,
        _ if !ok => SetupStage::Failed,
        SetupStage::UnshareUser => SetupStage::Announce,
        SetupStage::Announce => SetupStage::AwaitGo,
        SetupStage::AwaitGo => SetupStage::Unshare,
        SetupStage::Unshare => if host_network {
            SetupStage::Hostname
        } else {
            SetupStage::Loopback
        },
        SetupStage::Loopback => SetupStage::Hostname,
        SetupStage::Hostname => SetupStage::BuildRoot,
        SetupStage::BuildRoot => SetupStage::Fork,
        SetupStage::Fork => SetupStage::Done,
        SetupStage::Failed => SetupStage::Failed,
    }
}

/// The namespaces to enter besides the user namespace.
#[derive(Debug, Clone, Copy, PartialEq, Eq, Structural)]
pub struct Namespaces {
    pub mount: bool,
    pub pid: bool,
    pub uts: bool,
    pub net: bool,
}

/// The namespaces of a sandbox: all of them, but for the network where the
/// sandbox keeps the host's.
pub fn namespaces(host_network: bool) -> (r: Namespaces)
    ensures
        r.mount && r.pid && r.uts,
        r.net == !host_network,
{
    Namespaces { mount: true, pid: true, uts: true, net: !host_network }
}

/// Why setup failed at stage `s`; `why` is what the system said.
pub open spec fn setup_reason(s: SetupStage, why: Seq<char>) -> Seq<char> {
    match s {
        SetupStage::UnshareUser => "unshare(CLONE_NEWUSER) failed: "@ + why
            + ". Unprivileged user namespaces appear to be unavailable on this host"@,
        SetupStage::AwaitGo => "waiting for host: "@ + why,
        SetupStage::Unshare => "unshare(mount/pid/uts/net): "@ + why,
        SetupStage::Hostname => "sethostname: "@ + why,
        SetupStage::Fork => "fork: "@ + why,
        _ => why,
    }
}

/// Why setup failed at stage `s`.
pub fn setup_failed(s: SetupStage, why: &str) -> (r: String)
    ensures
        r@ == setup_reason(s, why@),
        s == SetupStage::UnshareUser ==> r@ == "unshare(CLONE_NEWUSER) failed: "@ + why@
            + ". Unprivileged user namespaces appear to be unavailable on this host"@,
        s == SetupStage::AwaitGo ==> r@ == "waiting for host: "@ + why@,
        s == SetupStage::Unshare ==> r@ == "unshare(mount/pid/uts/net): "@ + why@,
        s == SetupStage::Hostname ==> r@ == "sethostname: "@ + why@,
        s == SetupStage::Fork ==> r@ == "fork: "@ + why@,
        s != SetupStage::UnshareUser && s != SetupStage::AwaitGo && s != SetupStage::Unshare && s
            != SetupStage::Hostname && s != SetupStage::Fork ==> r@ == why@,
{
    match s {
        SetupStage::UnshareUser => {
            let mut m: String = copied("unshare(CLONE_NEWUSER) failed: ");
            m.append(why);
            m.append(". Unprivileged user namespaces appear to be unavailable on this host");
            m
        },
        SetupStage::AwaitGo => {
            let mut m: String = copied("waiting for host: ");
            m.append(why);
            m
        },
        SetupStage::Unshare => {
            let mut m: String = copied("unshare(mount/pid/uts/net): ");
            m.append(why);
            m
        },
        SetupStage::Hostname => {
            let mut m: String = copied("sethostname: ");
            m.append(why);
            m
        },
        SetupStage::Fork => {
            let mut m: String = copied("fork: ");
            m.append(why);
            m
        },
        _ => copied(why),
    }
}

/// What it means that the host said something else than to go on.
pub const HOST_ABORTED: &'static str = "host aborted during uid mapping";

/// The line that announces the guest's process number.
pub fn pid_line(pid: u32) -> (r: String)
    ensures
        r@ == "pid "@ + text::decimal(pid as nat),
{
    let mut m: String = copied("pid ");
    m.append(decimal_text(pid as u64).as_str());
    m
}

/// The host reads back the process number that setup announces.
pub proof fn law_pid_is_announced(pid: u32, before: Option<u32>)
    ensures
        spawn::announced(before, "pid "@ + text::decimal(pid as nat)) == Some(pid),
{
    reveal_strlit("pid ");
    reveal_strlit("unshared");
    let d = text::decimal(pid as nat);
    let line = "pid "@ + d;
    assert(line.take(4) =~= "pid "@);
    assert(line[0] == 'p');
    assert(line.skip(4) =~= d);
    text::lemma_digits(pid as nat, 10);
    assert(!text::is_space(d[0]) && !text::is_space(d[d.len() - 1]));
    assert(text::trim_start_of(d) == d);
    assert(text::trim_end_of(d) == d);
    text::law_number_roundtrip(pid as nat, 10, u32::MAX as int);
}

/// Where user namespaces are not available, the host reports a missing kernel
/// facility.
pub proof fn law_no_userns_is_unsupported(why: Seq<char>, e: Error)
    requires
        spawn::is_setup_error(
            e,
            helpers::on_one_line(setup_reason(SetupStage::UnshareUser, why)),
        ),
    ensures
        e is Unsupported,
{
    reveal_strlit("unshare(CLONE_NEWUSER) failed: ");
    reveal_strlit("CLONE_NEWUSER");
    let m = helpers::on_one_line(setup_reason(SetupStage::UnshareUser, why));
    let p = "CLONE_NEWUSER"@;
    assert(m.skip(8).take(p.len() as int) =~= p);
    assert(text::begins(m.skip(8), p));
}

// --- the guest's configuration -----------------------------------------------

/// The environment that every command starts from.
pub open spec fn base_pairs() -> Seq<(Seq<char>, Seq<char>)> {
    seq![
        ("PATH"@, "/usr/local/sbin:/usr/local/bin:/usr/sbin:/usr/bin:/sbin:/bin"@),
        ("HOME"@, "/root"@),
        ("USER"@, "root"@),
        ("LOGNAME"@, "root"@),
        ("TERM"@, "xterm"@),
    ]
}

/// What a directory of commands is called has no separator in it.
proof fn lemma_no_colon(d: Seq<char>)
    requires
        d == "/usr/local/sbin"@ || d == "/usr/local/bin"@ || d == "/usr/sbin"@ || d == "/usr/bin"@
            || d == "/sbin"@ || d == "/bin"@,
    ensures
        !d.contains(':'),
{
    reveal_strlit("/usr/local/sbin");
    reveal_strlit("/usr/local/bin");
    reveal_strlit("/usr/sbin");
    reveal_strlit("/usr/bin");
    reveal_strlit("/sbin");
    reveal_strlit("/bin");
}

proof fn lemma_search_path()
    ensures
        text::fields_of(
            "/usr/local/sbin:/usr/local/bin:/usr/sbin:/usr/bin:/sbin:/bin"@,
            ':',
        ) == seq![
            "/usr/local/sbin"@,
            "/usr/local/bin"@,
            "/usr/sbin"@,
            "/usr/bin"@,
            "/sbin"@,
            "/bin"@,
        ],
{
    let a = "/usr/local/sbin"@;
    let b = "/usr/local/bin"@;
    let c = "/usr/sbin"@;
    let d = "/usr/bin"@;
    let e = "/sbin"@;
    let f = "/bin"@;
    let p5 = e + seq![':'] + f;
    let p4 = d + seq![':'] + p5;
    let p3 = c + seq![':'] + p4;
    let p2 = b + seq![':'] + p3;
    let p1 = a + seq![':'] + p2;
    lemma_no_colon(a);
    lemma_no_colon(b);
    lemma_no_colon(c);
    lemma_no_colon(d);
    lemma_no_colon(e);
    lemma_no_colon(f);
    text::law_fields_are_between_separators(a, p2, ':');
    text::law_fields_are_between_separators(b, p3, ':');
    text::law_fields_are_between_separators(c, p4, ':');
    text::law_fields_are_between_separators(d, p5, ':');
    text::law_fields_are_between_separators(e, f, ':');
    text::law_fields_are_between_separators(f, Seq::empty(), ':');
    assert(text::fields_of(p1, ':') =~= seq![a, b, c, d, e, f]);
    assert(p1 =~= "/usr/local/sbin:/usr/local/bin:/usr/sbin:/usr/bin:/sbin:/bin"@) by {
        reveal_strlit("/usr/local/sbin:/usr/local/bin:/usr/sbin:/usr/bin:/sbin:/bin");
        reveal_strlit("/usr/local/sbin");
        reveal_strlit("/usr/local/bin");
        reveal_strlit("/usr/sbin");
        reveal_strlit("/usr/bin");
        reveal_strlit("/sbin");
        reveal_strlit("/bin");
    }
}

/// Commands are found: whatever the sandbox's own environment is, what every
/// command starts from has a search path of all six directories of commands, in
/// the usual order.
pub proof fn law_commands_are_found(own: Seq<(Seq<char>, Seq<char>)>)
    ensures
        (base_pairs() + own).len() == 5 + own.len(),
        (base_pairs() + own)[0].0 == "PATH"@ && text::fields_of((base_pairs() + own)[0].1, ':') == seq![
            "/usr/local/sbin"@,
            "/usr/local/bin"@,
            "/usr/sbin"@,
            "/usr/bin"@,
            "/sbin"@,
            "/bin"@,
        ],
        (base_pairs() + own)[1].0 == "HOME"@ && (base_pairs() + own)[1].1 == "/root"@,
        (base_pairs() + own)[2].0 == "USER"@ && (base_pairs() + own)[2].1 == "root"@,
        (base_pairs() + own)[3].0 == "LOGNAME"@ && (base_pairs() + own)[3].1 == "root"@,
        (base_pairs() + own)[4].0 == "TERM"@ && (base_pairs() + own)[4].1 == "xterm"@,
        forall|i: int|
            0 <= i < own.len() ==> (base_pairs() + own)[5 + i].0 == (#[trigger] own[i]).0 && (base_pairs() + own)[5 + i].1
                == own[i].1,
{
    lemma_search_path();
}

/// The environment of the guest's commands: the base, then the sandbox's own.
pub fn base_env(cfg: &SetupConfig) -> (r: Vec<(String, String)>)
    ensures
        text::pair_views(r@) == base_pairs() + text::pair_views(cfg.env@),
        r@.len() == 5 + cfg.env@.len(),
        r@[0].0@ == "PATH"@ && text::fields_of(r@[0].1@, ':') == seq![
            "/usr/local/sbin"@,
            "/usr/local/bin"@,
            "/usr/sbin"@,
            "/usr/bin"@,
            "/sbin"@,
            "/bin"@,
        ],
        r@[1].0@ == "HOME"@ && r@[1].1@ == "/root"@,
        r@[2].0@ == "USER"@ && r@[2].1@ == "root"@,
        r@[3].0@ == "LOGNAME"@ && r@[3].1@ == "root"@,
        r@[4].0@ == "TERM"@ && r@[4].1@ == "xterm"@,
        forall|i: int|
            0 <= i < cfg.env@.len() ==> r@[5 + i].0@ == (#[trigger] cfg.env@[i]).0@ && r@[5 + i].1@
                == cfg.env@[i].1@,
{
    let mut v: Vec<(String, String)> = Vec::new();
    v.push(
        (
            copied("PATH"),
            copied("/usr/local/sbin:/usr/local/bin:/usr/sbin:/usr/bin:/sbin:/bin"),
        ),
    );
    v.push((copied("HOME"), copied("/root")));
    v.push((copied("USER"), copied("root")));
    v.push((copied("LOGNAME"), copied("root")));
    v.push((copied("TERM"), copied("xterm")));
    assert(text::pair_views(v@) =~= base_pairs());
    let ghost base = v@;
    let mut own: Vec<(String, String)> = copied_pairs(&cfg.env);
    let ghost extra = own@;
    v.append(&mut own);
    proof {
        assert(text::pair_views(v@) =~= text::pair_views(base) + text::pair_views(extra));
        let own = text::pair_views(cfg.env@);
        law_commands_are_found(own);
        assert forall|i: int| 0 <= i < v@.len() implies (base_pairs() + own)[i] == (
            #[trigger] v@[i].0@,
            v@[i].1@,
        ) by {
            assert(text::pair_views(v@)[i] == (v@[i].0@, v@[i].1@));
        }
        assert forall|i: int| 0 <= i < cfg.env@.len() implies v@[5 + i].0@ == (
        #[trigger] cfg.env@[i]).0@ && v@[5 + i].1@ == cfg.env@[i].1@ by {
            assert(own[i] == (cfg.env@[i].0@, cfg.env@[i].1@));
            assert((base_pairs() + own)[5 + i] == own[i]);
        }
    }
    v
}

/// What the guest is told. Its `/proc` is mounted before it starts.
pub fn guest_config(cfg: &SetupConfig) -> (r: GuestConfig)
    ensures
        r.socket_path@ == paths::under(INSIDE_RT_DIR@, SOCKET_NAME@),
        r.log_path@ == paths::under(INSIDE_RT_DIR@, LOG_NAME@),
        r.socket_path@ == paths::under("/run/draug"@, "guest.sock"@),
        r.log_path@ == paths::under("/run/draug"@, "guest.log"@),
        r.default_cwd@ == cfg.project_dir@,
        text::pair_views(r.env@) == base_pairs() + text::pair_views(cfg.env@),
        r.env@.len() == 5 + cfg.env@.len(),
        r.env@[0].0@ == "PATH"@ && text::fields_of(r.env@[0].1@, ':') == seq![
            "/usr/local/sbin"@,
            "/usr/local/bin"@,
            "/usr/sbin"@,
            "/usr/bin"@,
            "/sbin"@,
            "/bin"@,
        ],
        r.env@[1].0@ == "HOME"@ && r.env@[1].1@ == "/root"@,
        r.env@[2].0@ == "USER"@ && r.env@[2].1@ == "root"@,
        r.env@[3].0@ == "LOGNAME"@ && r.env@[3].1@ == "root"@,
        r.env@[4].0@ == "TERM"@ && r.env@[4].1@ == "xterm"@,
        forall|i: int|
            0 <= i < cfg.env@.len() ==> r.env@[5 + i].0@ == (#[trigger] cfg.env@[i]).0@ && r.env@[5 + i].1@
                == cfg.env@[i].1@,
        !r.mount_proc,
{
    GuestConfig {
        socket_path: join(INSIDE_RT_DIR, SOCKET_NAME),
        log_path: join(INSIDE_RT_DIR, LOG_NAME),
        default_cwd: cfg.project_dir.clone(),
        env: base_env(cfg),
        mount_proc: false,
    }
}

// --- the file system ---------------------------------------------------------

/// Host directories that a sandbox sees, read-only. `/home`, `/root` and
/// anything else that users write to is absent: the only writable window onto
/// the host is the project's upper layer.
pub open spec fn system_dirs() -> Seq<Seq<char>> {
    seq![
        "/usr"@,
        "/bin"@,
        "/sbin"@,
        "/lib"@,
        "/lib32"@,
        "/lib64"@,
        "/libx32"@,
        "/etc"@,
        "/opt"@,
        "/var"@,
        "/nix"@,
        "/snap"@,
    ]
}

/// Host directories that a sandbox sees, read-only.
pub fn ro_system_dirs() -> (r: Vec<&'static str>)
    ensures
        text::word_views(r@) == system_dirs(),
        r@.len() == 12,
        r@[0]@ == "/usr"@ && r@[1]@ == "/bin"@ && r@[2]@ == "/sbin"@ && r@[3]@ == "/lib"@,
        r@[4]@ == "/lib32"@ && r@[5]@ == "/lib64"@ && r@[6]@ == "/libx32"@ && r@[7]@ == "/etc"@,
        r@[8]@ == "/opt"@ && r@[9]@ == "/var"@ && r@[10]@ == "/nix"@ && r@[11]@ == "/snap"@,
{
    let mut v: Vec<&'static str> = Vec::new();
    v.push("/usr");
    v.push("/bin");
    v.push("/sbin");
    v.push("/lib");
    v.push("/lib32");
    v.push("/lib64");
    v.push("/libx32");
    v.push("/etc");
    v.push("/opt");
    v.push("/var");
    v.push("/nix");
    v.push("/snap");
    assert(text::word_views(v@) =~= system_dirs());
    v
}

/// No directory of users is among those that a sandbox sees.
pub proof fn law_no_user_directory_is_bound(i: int)
    requires
        0 <= i < system_dirs().len(),
    ensures
        system_dirs()[i] != "/home"@,
        system_dirs()[i] != "/root"@,
        system_dirs()[i] != "/"@,
        system_dirs()[i] != "/tmp"@,
{
    reveal_strlit("/home");
    reveal_strlit("/root");
    reveal_strlit("/");
    reveal_strlit("/tmp");
    reveal_strlit("/usr");
    reveal_strlit("/bin");
    reveal_strlit("/sbin");
    reveal_strlit("/lib");
    reveal_strlit("/lib32");
    reveal_strlit("/lib64");
    reveal_strlit("/libx32");
    reveal_strlit("/etc");
    reveal_strlit("/opt");
    reveal_strlit("/var");
    reveal_strlit("/nix");
    reveal_strlit("/snap");
    let d = system_dirs()[i];
    assert(d.len() > 1);
    assert(d[1] == 'u' || d[1] == 'b' || d[1] == 's' || d[1] == 'l' || d[1] == 'e' || d[1] == 'o'
        || d[1] == 'v' || d[1] == 'n');
    assert("/home"@[1] == 'h' && "/root"@[1] == 'r' && "/tmp"@[1] == 't');
}

/// What to do about one of those directories on this host.
#[derive(Debug, Clone, Copy, PartialEq, Eq, Structural)]
pub enum SystemDirStep {
    /// It is not there, or is no directory.
    Skip,
    /// It is a link: make the same link.
    Link,
    /// Bind it, and make it and every mount below it read-only.
    Bind,
}

/// What to do about a directory that is a `kind` on this host.
pub fn bind_system_dir(kind: Option<FileKind>) -> (r: SystemDirStep)
    ensures
        r == match kind {
            Some(FileKind::Symlink) => SystemDirStep::Link,
            Some(FileKind::Dir) => SystemDirStep::Bind,
            _ => SystemDirStep::Skip,
        },
{
    match kind {
        Some(FileKind::Symlink) => SystemDirStep::Link,
        Some(FileKind::Dir) => SystemDirStep::Bind,
        _ => SystemDirStep::Skip,
    }
}

/// A step of putting the file system together. Targets are in the new root.
pub enum RootOp {
    /// Keep mounts from spreading back to the host.
    Slave,
    /// Create a directory.
    MakeDir { path: String },
    /// Mount an empty file system with those options.
    Tmpfs { target: String, options: &'static str },
    /// Bind a host directory, read-only.
    SystemDir { source: &'static str, target: String },
    /// Bind a device node, where the host has it.
    Node { source: String, target: String },
    /// Make a link.
    Link { path: String, to: &'static str },
    /// Mount pseudo terminals.
    Devpts { target: String },
    /// Create the directory for `/sys`, and mount it where that is possible.
    Sys { target: String, mounted: bool },
    /// Bind a host directory, writable.
    Bind { source: String, target: String },
    /// Mount the project's overlay.
    Project { target: String },
}

/// What a step says, over mathematical values.
pub enum Op {
    Slave,
    MakeDir(Seq<char>),
    Tmpfs(Seq<char>, Seq<char>),
    SystemDir(Seq<char>, Seq<char>),
    Node(Seq<char>, Seq<char>),
    Link(Seq<char>, Seq<char>),
    Devpts(Seq<char>),
    Sys(Seq<char>, bool),
    Bind(Seq<char>, Seq<char>),
    Project(Seq<char>),
}

impl View for RootOp {
    type V = Op;

    open spec fn view(&self) -> Op {
        match *self {
            RootOp::Slave => Op::Slave,
            RootOp::MakeDir { path } => Op::MakeDir(path@),
            RootOp::Tmpfs { target, options } => Op::Tmpfs(target@, options@),
            RootOp::SystemDir { source, target } => Op::SystemDir(source@, target@),
            RootOp::Node { source, target } => Op::Node(source@, target@),
            RootOp::Link { path, to } => Op::Link(path@, to@),
            RootOp::Devpts { target } => Op::Devpts(target@),
            RootOp::Sys { target, mounted } => Op::Sys(target@, mounted),
            RootOp::Bind { source, target } => Op::Bind(source@, target@),
            RootOp::Project { target } => Op::Project(target@),
        }
    }
}

/// What each step says.
pub open spec fn ops(v: Seq<RootOp>) -> Seq<Op> {
    v.map_values(|o: RootOp| o@)
}

/// What a step says is what it holds.
pub proof fn law_steps_say_what_they_hold(v: Seq<RootOp>, i: int)
    requires
        0 <= i < v.len(),
    ensures
        ops(v).len() == v.len(),
        match v[i] {
            RootOp::Slave => ops(v)[i] == Op::Slave,
            RootOp::MakeDir { path } => ops(v)[i] == Op::MakeDir(path@),
            RootOp::Tmpfs { target, options } => ops(v)[i] == Op::Tmpfs(target@, options@),
            RootOp::SystemDir { source, target } => ops(v)[i] == Op::SystemDir(source@, target@),
            RootOp::Node { source, target } => ops(v)[i] == Op::Node(source@, target@),
            RootOp::Link { path, to } => ops(v)[i] == Op::Link(path@, to@),
            RootOp::Devpts { target } => ops(v)[i] == Op::Devpts(target@),
            RootOp::Sys { target, mounted } => ops(v)[i] == Op::Sys(target@, mounted),
            RootOp::Bind { source, target } => ops(v)[i] == Op::Bind(source@, target@),
            RootOp::Project { target } => ops(v)[i] == Op::Project(target@),
        },
{
}

/// The place of the absolute path `path` in the new root.
pub open spec fn inside(root: Seq<char>, path: Seq<char>) -> Seq<char> {
    paths::under(root, paths::without_slashes(path))
}

/// Every system directory, in its place.
pub open spec fn system_ops(root: Seq<char>) -> Seq<Op> {
    system_dirs().map_values(|d: Seq<char>| Op::SystemDir(d, inside(root, d)))
}

/// A device node, in its place.
pub open spec fn node_op(dev: Seq<char>, name: Seq<char>) -> Op {
    Op::Node(paths::under("/dev"@, name), paths::under(dev, name))
}

/// `/dev`: a few harmless nodes, the usual links, and terminals of its own.
pub open spec fn dev_ops(dev: Seq<char>) -> Seq<Op> {
    seq![
        Op::Tmpfs(dev, "mode=755"@),
        node_op(dev, "null"@),
        node_op(dev, "zero"@),
        node_op(dev, "full"@),
        node_op(dev, "random"@),
        node_op(dev, "urandom"@),
        node_op(dev, "tty"@),
        Op::Link(paths::under(dev, "fd"@), "/proc/self/fd"@),
        Op::Link(paths::under(dev, "stdin"@), "/proc/self/fd/0"@),
        Op::Link(paths::under(dev, "stdout"@), "/proc/self/fd/1"@),
        Op::Link(paths::under(dev, "stderr"@), "/proc/self/fd/2"@),
        Op::Link(paths::under(dev, "ptmx"@), "pts/ptmx"@),
        Op::MakeDir(paths::under(dev, "pts"@)),
        Op::Devpts(paths::under(dev, "pts"@)),
        Op::Tmpfs(paths::under(dev, "shm"@), "mode=1777"@),
    ]
}

/// The rest: `/proc`, `/root`, `/tmp`, `/sys`, the runtime directory, and the
/// project.
pub open spec fn other_ops(
    root: Seq<char>,
    state_dir: Seq<char>,
    host_network: bool,
    project: Seq<char>,
) -> Seq<Op> {
    let run = paths::under(root, "run"@);
    seq![
        Op::MakeDir(paths::under(root, "proc"@)),
        Op::MakeDir(paths::under(root, "root"@)),
        Op::Tmpfs(paths::under(root, "tmp"@), "mode=1777"@),
        Op::Sys(paths::under(root, "sys"@), !host_network),
        Op::Tmpfs(run, "mode=755"@),
        Op::MakeDir(paths::under(run, "draug"@)),
        Op::Bind(paths::under(state_dir, "rt"@), paths::under(run, "draug"@)),
        Op::Project(project),
    ]
}

/// Everything that puts the file system together, in order.
pub open spec fn root_plan(cfg: SetupConfig) -> Seq<Op> {
    let root = paths::under(cfg.state_dir@, "root"@);
    seq![Op::Slave, Op::Tmpfs(root, "mode=755"@)] + system_ops(root) + dev_ops(
        paths::under(root, "dev"@),
    ) + other_ops(root, cfg.state_dir@, cfg.network, inside(root, cfg.project_dir@))
}

fn push_system_ops(v: &mut Vec<RootOp>, root: &str)
    ensures
        ops(final(v)@) == ops(old(v)@) + system_ops(root@),
{
    let dirs: Vec<&'static str> = ro_system_dirs();
    let ghost all = text::word_views(dirs@);
    let mut i: usize = 0;
    assert(ops(v@) =~= ops(old(v)@) + system_ops(root@).take(0));
    while i < dirs.len()
        invariant
            i <= dirs@.len(),
            all == text::word_views(dirs@),
            all == system_dirs(),
            ops(v@) == ops(old(v)@) + system_ops(root@).take(i as int),
        decreases dirs@.len() - i,
    {
        let d: &'static str = dirs[i];
        let ghost before = v@;
        assert(all[i as int] == d@);
        let o: RootOp = RootOp::SystemDir { source: d, target: join(root, strip_slashes(d)) };
        v.push(o);
        assert(ops(v@) =~= ops(before).push(o@));
        assert(system_ops(root@)[i as int] == o@);
        assert(ops(v@) =~= ops(old(v)@) + system_ops(root@).take(i + 1));
        i += 1;
    }
    assert(system_ops(root@).take(i as int) =~= system_ops(root@));
}

fn node(dev: &str, name: &str) -> (r: RootOp)
    ensures
        r@ == node_op(dev@, name@),
{
    RootOp::Node { source: join("/dev", name), target: join(dev, name) }
}

fn dev_steps(dev: &str) -> (r: Vec<RootOp>)
    ensures
        ops(r@) == dev_ops(dev@),
{
    let mut v: Vec<RootOp> = Vec::new();
    v.push(RootOp::Tmpfs { target: copied(dev), options: "mode=755" });
    v.push(node(dev, "null"));
    v.push(node(dev, "zero"));
    v.push(node(dev, "full"));
    v.push(node(dev, "random"));
    v.push(node(dev, "urandom"));
    v.push(node(dev, "tty"));
    v.push(RootOp::Link { path: join(dev, "fd"), to: "/proc/self/fd" });
    v.push(RootOp::Link { path: join(dev, "stdin"), to: "/proc/self/fd/0" });
    v.push(RootOp::Link { path: join(dev, "stdout"), to: "/proc/self/fd/1" });
    v.push(RootOp::Link { path: join(dev, "stderr"), to: "/proc/self/fd/2" });
    v.push(RootOp::Link { path: join(dev, "ptmx"), to: "pts/ptmx" });
    v.push(RootOp::MakeDir { path: join(dev, "pts") });
    v.push(RootOp::Devpts { target: join(dev, "pts") });
    v.push(RootOp::Tmpfs { target: join(dev, "shm"), options: "mode=1777" });
    assert(ops(v@) =~= dev_ops(dev@));
    v
}

fn other_steps(root: &str, state_dir: &str, host_network: bool, project: String) -> (r: Vec<RootOp>)
    ensures
        ops(r@) == other_ops(root@, state_dir@, host_network, project@),
{
    let run: String = join(root, "run");
    let mut v: Vec<RootOp> = Vec::new();
    v.push(RootOp::MakeDir { path: join(root, "proc") });
    v.push(RootOp::MakeDir { path: join(root, "root") });
    v.push(RootOp::Tmpfs { target: join(root, "tmp"), options: "mode=1777" });
    v.push(RootOp::Sys { target: join(root, "sys"), mounted: !host_network });
    v.push(RootOp::Tmpfs { target: run.clone(), options: "mode=755" });
    v.push(RootOp::MakeDir { path: join(run.as_str(), "draug") });
    v.push(RootOp::Bind { source: join(state_dir, "rt"), target: join(run.as_str(), "draug") });
    v.push(RootOp::Project { target: project });
    assert(ops(v@) =~= other_ops(root@, state_dir@, host_network, project@));
    v
}

/// Everything that puts the file system together, in order. The project's
/// directory must be absolute.
pub fn build_rootfs(cfg: &SetupConfig) -> (r: Result<Vec<RootOp>, String>)
    ensures
        if text::begins(cfg.project_dir@, "/"@) {
            r matches Ok(v) && ops(v@) == root_plan(*cfg)
        } else {
            r matches Err(m) && m@ == "project dir must be absolute"@
        },
{
    if !starts_with(cfg.project_dir.as_str(), "/") {
        return Err(copied("project dir must be absolute"));
    }
    let root: String = join(cfg.state_dir.as_str(), "root");
    let mut v: Vec<RootOp> = Vec::new();
    v.push(RootOp::Slave);
    v.push(RootOp::Tmpfs { target: root.clone(), options: "mode=755" });
    assert(ops(v@) =~= seq![Op::Slave, Op::Tmpfs(root@, "mode=755"@)]);
    push_system_ops(&mut v, root.as_str());
    let ghost one = v@;
    let dev: String = join(root.as_str(), "dev");
    let mut d: Vec<RootOp> = dev_steps(dev.as_str());
    let ghost two = d@;
    v.append(&mut d);
    assert(ops(v@) =~= ops(one) + ops(two));
    let ghost three = v@;
    let mut o: Vec<RootOp> = other_steps(
        root.as_str(),
        cfg.state_dir.as_str(),
        cfg.network,
        join(root.as_str(), strip_slashes(cfg.project_dir.as_str())),
    );
    let ghost four = o@;
    v.append(&mut o);
    assert(ops(v@) =~= ops(three) + ops(four));
    Ok(v)
}

/// The host paths that a step makes visible inside, and whether they can be
/// written there.
pub open spec fn exposes(o: Op) -> Option<(Seq<char>, bool)> {
    match o {
        Op::SystemDir(s, _) => Some((s, false)),
        Op::Node(s, _) | Op::Bind(s, _) => Some((s, true)),
        _ => None,
    }
}

/// Of the host's files, a sandbox can write its own runtime directory and the
/// device nodes, and nothing else: the system directories are read-only, and
/// what else there is belongs to the sandbox.
pub proof fn law_only_runtime_dir_is_writable(cfg: SetupConfig, i: int)
    requires
        0 <= i < root_plan(cfg).len(),
        exposes(root_plan(cfg)[i]) matches Some(e) && e.1,
    ensures
        match root_plan(cfg)[i] {
            Op::Bind(source, _) => source == paths::under(cfg.state_dir@, "rt"@),
            Op::Node(source, _) => exists|n: Seq<char>|
                source == #[trigger] paths::under("/dev"@, n),
            _ => false,
        },
{
    let root = paths::under(cfg.state_dir@, "root"@);
    let head = seq![Op::Slave, Op::Tmpfs(root, "mode=755"@)];
    let sys = system_ops(root);
    let dev = dev_ops(paths::under(root, "dev"@));
    let o = root_plan(cfg)[i];
    let a = head.len() as int;
    let b = a + sys.len();
    let c = b + dev.len();
    if i < a {
        assert(o == head[i]);
    } else if i < b {
        assert(o == sys[i - a]);
    } else if i < c {
        assert(o == dev[i - b]);
    } else {
        assert(o == other_ops(
            root,
            cfg.state_dir@,
            cfg.network,
            inside(root, cfg.project_dir@),
        )[i - c]);
    }
}

proof fn lemma_one_slash(d: Seq<char>)
    requires
        d.len() > 1 && d[0] == '/' && d[1] != '/',
    ensures
        paths::without_slashes(d) == d.skip(1),
{
    assert(paths::without_slashes(d.skip(1)) == d.skip(1));
}

proof fn lemma_system_places(root: Seq<char>)
    ensures
        system_ops(root) == seq![
            Op::SystemDir("/usr"@, paths::under(root, "usr"@)),
            Op::SystemDir("/bin"@, paths::under(root, "bin"@)),
            Op::SystemDir("/sbin"@, paths::under(root, "sbin"@)),
            Op::SystemDir("/lib"@, paths::under(root, "lib"@)),
            Op::SystemDir("/lib32"@, paths::under(root, "lib32"@)),
            Op::SystemDir("/lib64"@, paths::under(root, "lib64"@)),
            Op::SystemDir("/libx32"@, paths::under(root, "libx32"@)),
            Op::SystemDir("/etc"@, paths::under(root, "etc"@)),
            Op::SystemDir("/opt"@, paths::under(root, "opt"@)),
            Op::SystemDir("/var"@, paths::under(root, "var"@)),
            Op::SystemDir("/nix"@, paths::under(root, "nix"@)),
            Op::SystemDir("/snap"@, paths::under(root, "snap"@)),
        ],
{
    reveal_strlit("/usr");
    reveal_strlit("usr");
    lemma_one_slash("/usr"@);
    assert("/usr"@.skip(1) =~= "usr"@);
    reveal_strlit("/bin");
    reveal_strlit("bin");
    lemma_one_slash("/bin"@);
    assert("/bin"@.skip(1) =~= "bin"@);
    reveal_strlit("/sbin");
    reveal_strlit("sbin");
    lemma_one_slash("/sbin"@);
    assert("/sbin"@.skip(1) =~= "sbin"@);
    reveal_strlit("/lib");
    reveal_strlit("lib");
    lemma_one_slash("/lib"@);
    assert("/lib"@.skip(1) =~= "lib"@);
    reveal_strlit("/lib32");
    reveal_strlit("lib32");
    lemma_one_slash("/lib32"@);
    assert("/lib32"@.skip(1) =~= "lib32"@);
    reveal_strlit("/lib64");
    reveal_strlit("lib64");
    lemma_one_slash("/lib64"@);
    assert("/lib64"@.skip(1) =~= "lib64"@);
    reveal_strlit("/libx32");
    reveal_strlit("libx32");
    lemma_one_slash("/libx32"@);
    assert("/libx32"@.skip(1) =~= "libx32"@);
    reveal_strlit("/etc");
    reveal_strlit("etc");
    lemma_one_slash("/etc"@);
    assert("/etc"@.skip(1) =~= "etc"@);
    reveal_strlit("/opt");
    reveal_strlit("opt");
    lemma_one_slash("/opt"@);
    assert("/opt"@.skip(1) =~= "opt"@);
    reveal_strlit("/var");
    reveal_strlit("var");
    lemma_one_slash("/var"@);
    assert("/var"@.skip(1) =~= "var"@);
    reveal_strlit("/nix");
    reveal_strlit("nix");
    lemma_one_slash("/nix"@);
    assert("/nix"@.skip(1) =~= "nix"@);
    reveal_strlit("/snap");
    reveal_strlit("snap");
    lemma_one_slash("/snap"@);
    assert("/snap"@.skip(1) =~= "snap"@);
}

/// Everything that a sandbox needs is in its root, each in its place: every
/// system directory where the host has it, the six device nodes, a `/tmp` that
/// all may write to, terminals, the runtime directory, and last, over all that,
/// the project. `/sys` is mounted unless the sandbox keeps the host's network.
pub proof fn law_root_has_everything(cfg: SetupConfig)
    ensures
        ({
            let p = root_plan(cfg);
            let root = paths::under(cfg.state_dir@, "root"@);
            let dev = paths::under(root, "dev"@);
            let run = paths::under(root, "run"@);
            &&& p.len() == 37
            &&& p[0] == Op::Slave
            &&& p[1] == Op::Tmpfs(root, "mode=755"@)
            &&& p.contains(Op::SystemDir("/usr"@, paths::under(root, "usr"@)))
            &&& p.contains(Op::SystemDir("/bin"@, paths::under(root, "bin"@)))
            &&& p.contains(Op::SystemDir("/sbin"@, paths::under(root, "sbin"@)))
            &&& p.contains(Op::SystemDir("/lib"@, paths::under(root, "lib"@)))
            &&& p.contains(Op::SystemDir("/lib32"@, paths::under(root, "lib32"@)))
            &&& p.contains(Op::SystemDir("/lib64"@, paths::under(root, "lib64"@)))
            &&& p.contains(Op::SystemDir("/libx32"@, paths::under(root, "libx32"@)))
            &&& p.contains(Op::SystemDir("/etc"@, paths::under(root, "etc"@)))
            &&& p.contains(Op::SystemDir("/opt"@, paths::under(root, "opt"@)))
            &&& p.contains(Op::SystemDir("/var"@, paths::under(root, "var"@)))
            &&& p.contains(Op::SystemDir("/nix"@, paths::under(root, "nix"@)))
            &&& p.contains(Op::SystemDir("/snap"@, paths::under(root, "snap"@)))
            &&& p[14] == Op::Tmpfs(dev, "mode=755"@)
            &&& p[15] == Op::Node(paths::under("/dev"@, "null"@), paths::under(dev, "null"@))
            &&& p[16] == Op::Node(paths::under("/dev"@, "zero"@), paths::under(dev, "zero"@))
            &&& p[17] == Op::Node(paths::under("/dev"@, "full"@), paths::under(dev, "full"@))
            &&& p[18] == Op::Node(paths::under("/dev"@, "random"@), paths::under(dev, "random"@))
            &&& p[19] == Op::Node(paths::under("/dev"@, "urandom"@), paths::under(dev, "urandom"@))
            &&& p[20] == Op::Node(paths::under("/dev"@, "tty"@), paths::under(dev, "tty"@))
            &&& p[21] == Op::Link(paths::under(dev, "fd"@), "/proc/self/fd"@)
            &&& p[22] == Op::Link(paths::under(dev, "stdin"@), "/proc/self/fd/0"@)
            &&& p[23] == Op::Link(paths::under(dev, "stdout"@), "/proc/self/fd/1"@)
            &&& p[24] == Op::Link(paths::under(dev, "stderr"@), "/proc/self/fd/2"@)
            &&& p[25] == Op::Link(paths::under(dev, "ptmx"@), "pts/ptmx"@)
            &&& p[26] == Op::MakeDir(paths::under(dev, "pts"@))
            &&& p[27] == Op::Devpts(paths::under(dev, "pts"@))
            &&& p[28] == Op::Tmpfs(paths::under(dev, "shm"@), "mode=1777"@)
            &&& p[29] == Op::MakeDir(paths::under(root, "proc"@))
            &&& p[30] == Op::MakeDir(paths::under(root, "root"@))
            &&& p[31] == Op::Tmpfs(paths::under(root, "tmp"@), "mode=1777"@)
            &&& p[32] == Op::Sys(paths::under(root, "sys"@), !cfg.network)
            &&& p[33] == Op::Tmpfs(run, "mode=755"@)
            &&& p[34] == Op::MakeDir(paths::under(run, "draug"@))
            &&& p[35] == Op::Bind(
                paths::under(cfg.state_dir@, "rt"@),
                paths::under(run, "draug"@),
            )
            &&& p[36] == Op::Project(
                paths::under(root, paths::without_slashes(cfg.project_dir@)),
            )
        }),
{
    let root = paths::under(cfg.state_dir@, "root"@);
    let p = root_plan(cfg);
    lemma_system_places(root);
    let sys = system_ops(root);
    assert(p[2] == sys[0] && p[3] == sys[1] && p[4] == sys[2] && p[5] == sys[3]);
    assert(p[6] == sys[4] && p[7] == sys[5] && p[8] == sys[6] && p[9] == sys[7]);
    assert(p[10] == sys[8] && p[11] == sys[9] && p[12] == sys[10] && p[13] == sys[11]);
}

// --- the project's overlay ---------------------------------------------------

/// The mount options of the project's overlay. Rootless, overlay metadata goes
/// into user attributes.
pub open spec fn overlay_options_of(
    lower: Seq<char>,
    upper: Seq<char>,
    work: Seq<char>,
    host_is_root: bool,
) -> Seq<char> {
    "lowerdir="@ + lower + ",upperdir="@ + upper + ",workdir="@ + work + (if host_is_root {
        Seq::empty()
    } else {
        ",userxattr"@
    })
}

/// The mount options of the project's overlay.
pub fn overlay_options(lower: &str, upper: &str, work: &str, host_is_root: bool) -> (r: String)
    ensures
        r@ == overlay_options_of(lower@, upper@, work@, host_is_root),
        host_is_root ==> r@ == "lowerdir="@ + lower@ + ",upperdir="@ + upper@ + ",workdir="@ + work@,
        !host_is_root ==> r@ == "lowerdir="@ + lower@ + ",upperdir="@ + upper@ + ",workdir="@ + work@
            + ",userxattr"@,
{
    let mut s: String = copied("lowerdir=");
    s.append(lower);
    s.append(",upperdir=");
    s.append(upper);
    s.append(",workdir=");
    s.append(work);
    if !host_is_root {
        s.append(",userxattr");
    }
    assert(s@ =~= overlay_options_of(lower@, upper@, work@, host_is_root));
    s
}

proof fn lemma_first_field(a: Seq<char>, rest: Seq<char>)
    requires
        forall|k: int| 0 <= k < a.len() ==> #[trigger] a[k] != ',',
    ensures
        text::fields_of(a + seq![','] + rest, ',') == seq![a] + text::fields_of(rest, ','),
{
    let s = a + seq![','] + rest;
    assert forall|k: int| 0 <= k < a.len() implies s[k] != ',' by {
        assert(s[k] == a[k]);
    }
    text::lemma_until_is(s, ',', a.len() as int);
    assert(s.take(a.len() as int) =~= a);
    assert(s.skip(a.len() as int + 1) =~= rest);
}

/// Paths without commas come through as exactly the three options that they
/// were meant to be; nothing in them can add an option.
pub proof fn law_options_cannot_be_forged(
    lower: Seq<char>,
    upper: Seq<char>,
    work: Seq<char>,
    host_is_root: bool,
)
    requires
        spawn::first_unsafe(lower) is None,
        forall|k: int| 0 <= k < upper.len() ==> #[trigger] upper[k] != ',',
        forall|k: int| 0 <= k < work.len() ==> #[trigger] work[k] != ',',
    ensures
        text::fields_of(overlay_options_of(lower, upper, work, host_is_root), ',') == seq![
            "lowerdir="@ + lower,
            "upperdir="@ + upper,
            "workdir="@ + work,
        ] + (if host_is_root {
            Seq::empty()
        } else {
            seq!["userxattr"@]
        }),
{
    reveal_strlit("lowerdir=");
    reveal_strlit(",upperdir=");
    reveal_strlit("upperdir=");
    reveal_strlit(",workdir=");
    reveal_strlit("workdir=");
    let a = "lowerdir="@ + lower;
    let b = "upperdir="@ + upper;
    let c = "workdir="@ + work;
    assert forall|k: int| 0 <= k < a.len() implies #[trigger] a[k] != ',' by {
        if k >= 9 {
            assert(a[k] == lower[k - 9]);
            spawn::law_accepted_path_is_safe(lower, k - 9);
        }
    }
    assert forall|k: int| 0 <= k < b.len() implies #[trigger] b[k] != ',' by {
        if k >= 9 {
            assert(b[k] == upper[k - 9]);
        }
    }
    assert forall|k: int| 0 <= k < c.len() implies #[trigger] c[k] != ',' by {
        if k >= 8 {
            assert(c[k] == work[k - 8]);
        }
    }
    let all = overlay_options_of(lower, upper, work, host_is_root);
    assert(",upperdir="@ =~= seq![','] + "upperdir="@);
    assert(",workdir="@ =~= seq![','] + "workdir="@);
    if host_is_root {
        assert(all =~= a + seq![','] + (b + seq![','] + c));
        lemma_first_field(a, b + seq![','] + c);
        lemma_first_field(b, c);
        text::lemma_until_is(c, ',', c.len() as int);
        assert(text::fields_of(c, ',') == seq![c]);
        assert(seq![a] + (seq![b] + seq![c]) =~= seq![a, b, c] + Seq::<Seq<char>>::empty());
    } else {
        let d = "userxattr"@;
        reveal_strlit(",userxattr");
        reveal_strlit("userxattr");
        assert(",userxattr"@ =~= seq![','] + d);
        assert(all =~= a + seq![','] + (b + seq![','] + (c + seq![','] + d)));
        lemma_first_field(a, b + seq![','] + (c + seq![','] + d));
        lemma_first_field(b, c + seq![','] + d);
        lemma_first_field(c, d);
        text::lemma_until_is(d, ',', d.len() as int);
        assert(text::fields_of(d, ',') == seq![d]);
        assert(seq![a] + (seq![b] + (seq![c] + seq![d])) =~= seq![a, b, c] + seq![d]);
    }
}

/// What came of mounting the overlay.
pub enum OverlayTry {
    Mounted,
    /// The upper layer's file system cannot carry one.
    Unsuitable(String),
    Failed(String),
}

/// What to do about it.
pub enum OverlayStep {
    Done,
    /// Try again with an upper layer in memory.
    Fallback,
    /// It failed.
    Fail(String),
}

/// What to do after mounting the overlay. Where the state directory cannot
/// carry an upper layer, one in memory takes its place.
pub fn mount_project_overlay(t: OverlayTry, lower: &str, upper: &str) -> (r: OverlayStep)
    ensures
        match t {
            OverlayTry::Mounted => r is Done,
            OverlayTry::Unsuitable(_) => r is Fallback,
            OverlayTry::Failed(why) => r matches OverlayStep::Fail(m) && m@ == "overlay mount: "@
                + why@ + " (lower="@ + lower@ + ", upper="@ + upper@
                + "); kernel >= 5.11 with unprivileged overlayfs support is required"@,
        },
{
    match t {
        OverlayTry::Mounted => OverlayStep::Done,
        OverlayTry::Unsuitable(_) => OverlayStep::Fallback,
        OverlayTry::Failed(why) => {
            let mut m: String = copied("overlay mount: ");
            m.append(why.as_str());
            m.append(" (lower=");
            m.append(lower);
            m.append(", upper=");
            m.append(upper);
            m.append("); kernel >= 5.11 with unprivileged overlayfs support is required");
            OverlayStep::Fail(m)
        },
    }
}

/// The warning that the upper layer is in memory.
pub const VOLATILE_WARNING: &'static str = "warn state dir cannot host an overlay upper layer (nested overlayfs?); using a tmpfs upper — changes to the project will NOT survive destroy";

/// What the second try comes to: a warning, or why it failed.
pub fn after_fallback(t: OverlayTry) -> (r: Result<&'static str, String>)
    ensures
        match t {
            OverlayTry::Mounted => r matches Ok(w) && w@ == VOLATILE_WARNING@,
            OverlayTry::Unsuitable(why) => r matches Err(m) && m@
                == "overlay mount (tmpfs fallback): "@ + why@,
            OverlayTry::Failed(why) => r matches Err(m) && m@ == "overlay mount (tmpfs fallback): "@
                + why@,
        },
        r matches Ok(w) ==> w@
            == "warn state dir cannot host an overlay upper layer (nested overlayfs?); using a tmpfs upper — changes to the project will NOT survive destroy"@,
{
    let why: String = match t {
        OverlayTry::Mounted => {
            return Ok(VOLATILE_WARNING);
        },
        OverlayTry::Unsuitable(w) => w,
        OverlayTry::Failed(w) => w,
    };
    let mut m: String = copied("overlay mount (tmpfs fallback): ");
    m.append(why.as_str());
    Err(m)
}

// --- /proc and the pivot -----------------------------------------------------

/// What to do after trying to mount a private `/proc`.
pub enum ProcStep {
    /// Go on.
    Done,
    /// Bind the host's `/proc`.
    BindHost,
    /// Give up.
    Fail(String),
}

/// What to do after trying to mount a private `/proc`. The host's would show
/// the host's processes, and through them the user's files; it stands in only
/// where that was asked for.
pub fn after_proc_mount(res: Result<(), String>, allow_host_proc: bool) -> (r: ProcStep)
    ensures
        match res {
            Ok(()) => r is Done,
            Err(why) => if allow_host_proc {
                r is BindHost
            } else {
                r matches ProcStep::Fail(m) && m@ == "cannot mount a private /proc ("@ + why@
                    + "); refusing to expose the host's /proc. On a trusted host, --insecure-host-proc overrides this"@
            },
        },
{
    match res {
        Ok(()) => ProcStep::Done,
        Err(why) => if allow_host_proc {
            ProcStep::BindHost
        } else {
            let mut m: String = copied("cannot mount a private /proc (");
            m.append(why.as_str());
            m.append(
                "); refusing to expose the host's /proc. On a trusted host, --insecure-host-proc overrides this",
            );
            ProcStep::Fail(m)
        },
    }
}

/// The warning that the sandbox sees the host's processes.
pub const HOST_PROC_WARNING: &'static str = "warn cannot mount a private /proc (host /proc is masked?); the sandbox sees the host's /proc instead";

/// What binding the host's `/proc` comes to: a warning, or why it failed.
pub fn after_proc_bind(res: Result<(), String>) -> (r: Result<&'static str, String>)
    ensures
        match res {
            Ok(()) => r matches Ok(w) && w@ == HOST_PROC_WARNING@,
            Err(why) => r matches Err(m) && m@
                == "fresh proc mount refused and bind fallback failed ("@ + why@ + ")"@,
        },
        r matches Ok(w) ==> w@
            == "warn cannot mount a private /proc (host /proc is masked?); the sandbox sees the host's /proc instead"@,
{
    match res {
        Ok(()) => Ok(HOST_PROC_WARNING),
        Err(why) => {
            let mut m: String = copied("fresh proc mount refused and bind fallback failed (");
            m.append(why.as_str());
            m.append(")");
            Err(m)
        },
    }
}

/// The step that changing the root is at.
#[derive(Debug, Clone, Copy, PartialEq, Eq, Structural)]
pub enum PivotStage {
    /// Enter the new root.
    Enter,
    /// Make it the root.
    Pivot,
    /// Detach the old root.
    Detach,
    /// Go to the top of the new one.
    Top,
    /// Done.
    Done,
}

/// The stage after `s`.
pub fn pivot_next(s: PivotStage) -> (r: PivotStage)
    ensures
        r == match s {
            PivotStage::Enter => PivotStage::Pivot,
            PivotStage::Pivot => PivotStage::Detach,
            PivotStage::Detach => PivotStage::Top,
            PivotStage::Top | PivotStage::Done => PivotStage::Done,
        },
{
    match s {
        PivotStage::Enter => PivotStage::Pivot,
        PivotStage::Pivot => PivotStage::Detach,
        PivotStage::Detach => PivotStage::Top,
        PivotStage::Top => PivotStage::Done,
        PivotStage::Done => PivotStage::Done,
    }
}

/// Why changing the root failed at stage `s`.
pub fn pivot_failed(s: PivotStage, why: &str) -> (r: String)
    ensures
        r@ == match s {
            PivotStage::Enter => "chdir(new root): "@ + why@,
            PivotStage::Pivot => "pivot_root: "@ + why@,
            PivotStage::Detach => "detach old root: "@ + why@,
            PivotStage::Top | PivotStage::Done => "chdir(/): "@ + why@,
        },
{
    let mut m: String = match s {
        PivotStage::Enter => copied("chdir(new root): "),
        PivotStage::Pivot => copied("pivot_root: "),
        PivotStage::Detach => copied("detach old root: "),
        PivotStage::Top => copied("chdir(/): "),
        PivotStage::Done => copied("chdir(/): "),
    };
    m.append(why);
    m
}

} // verus!
