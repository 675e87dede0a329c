//! Helper processes: the same program, started again in a role of its own.
//!
//! Files in a sandbox's layer can belong to subordinate ids that only a user
//! namespace with the sandbox's mapping can touch. A helper enters such a
//! namespace, says `unshared`, waits for `go` while the host writes the
//! mapping, does its work, and says `done`; or it says `err` and why.

use vstd::prelude::*;

use crate::error::{Error, IoFailure, IoKind};
use crate::text;
use crate::text::{
    chars_of, copied, decimal_text, explain_number, from_utf8_lossy, parse_number, quoted, same,
    strip_prefix, trim,
};

verus! {

pub const REEXEC_ENV: &'static str = "DRAUG_REEXEC";

pub const CONFIG_ENV: &'static str = "DRAUG_SETUP_CONFIG";

pub const CLEANUP_DIR_ENV: &'static str = "DRAUG_CLEANUP_DIR";

pub const COPY_SRC_ENV: &'static str = "DRAUG_COPY_SRC";

pub const COPY_DST_ENV: &'static str = "DRAUG_COPY_DST";

pub const MODE_SETUP: &'static str = "setup";

pub const MODE_PROBE: &'static str = "probe";

pub const MODE_CLEANUP: &'static str = "cleanup";

pub const MODE_COPY: &'static str = "copy";

/// How long a layer copy may take, in seconds. It grows with what the sandbox
/// wrote; that is far more than setup needs.
pub const COPY_TIMEOUT_SECS: u64 = 600;

// --- the host's side ---------------------------------------------------------

/// What to do about a line from a helper that returns a `T`.
pub enum HelperStep<T> {
    /// It has its user namespace: write the id maps and let it go on.
    MapIds,
    /// Read on.
    Continue,
    /// It is done.
    Done(T),
    /// It failed.
    Fail(Error),
}

/// Takes a line from the cleanup helper.
pub fn cleanup_line(line: &str) -> (r: HelperStep<()>)
    ensures
        if line@ == "unshared"@ {
            r is MapIds
        } else if line@ == "done"@ {
            r == HelperStep::Done(())
        } else if text::begins(line@, "err "@) {
            r matches HelperStep::Fail(e) && e.is_io_other("cleanup helper"@, line@.skip(4))
        } else {
            r is Continue
        },
{
    proof {
        reveal_strlit("err ");
    }
    if same(line, "unshared") {
        return HelperStep::MapIds;
    }
    if same(line, "done") {
        return HelperStep::Done(());
    }
    match strip_prefix(line, "err ") {
        Some(m) => HelperStep::Fail(Error::io_other("cleanup helper", m)),
        None => HelperStep::Continue,
    }
}

/// Takes a line from the copy helper, which reports the bytes it copied.
pub fn copy_line(line: &str) -> (r: HelperStep<u64>)
    ensures
        if line@ == "unshared"@ {
            r is MapIds
        } else if text::begins(line@, "done "@) {
            let n = text::trimmed(line@.skip(5));
            match text::parsed(n, 10, u64::MAX as int) {
                Some(v) => r == HelperStep::Done(v as u64),
                None => r matches HelperStep::Fail(e) && e.is_io_other(
                    "copy helper"@,
                    text::number_problem(n, u64::MAX as int),
                ),
            }
        } else if text::begins(line@, "err "@) {
            r matches HelperStep::Fail(e) && e.is_io_other("copy helper"@, line@.skip(4))
        } else {
            r is Continue
        },
{
    proof {
        reveal_strlit("err ");
        reveal_strlit("done ");
    }
    if same(line, "unshared") {
        return HelperStep::MapIds;
    }
    if let Some(n) = strip_prefix(line, "done ") {
        let n: &str = trim(n);
        return match parse_number(n, 10, u64::MAX) {
            Some(v) => HelperStep::Done(v),
            None => HelperStep::Fail(Error::io_other("copy helper", explain_number(n, u64::MAX))),
        };
    }
    match strip_prefix(line, "err ") {
        Some(m) => HelperStep::Fail(Error::io_other("copy helper", m)),
        None => HelperStep::Continue,
    }
}

/// What it means that a helper ended without a word.
pub fn helper_ended(op: &'static str) -> (r: Error)
    ensures
        r.is_io_other(op@, "helper exited without confirming"@),
{
    Error::io_other(op, "helper exited without confirming")
}

/// What it means that a helper took too long.
pub fn helper_timed_out(op: &'static str) -> (r: Error)
    ensures
        r.is_io_other(op@, "timed out"@),
{
    Error::io_other(op, "timed out")
}

/// What to do after trying without a helper.
pub enum Direct<T> {
    /// It worked.
    Done(T),
    /// A helper has to do it.
    Helper,
    /// It failed.
    Fail(Error),
}

/// What to do after trying to remove a state directory: one that is not there
/// is as good as removed, and one with files of subordinate ids takes a
/// helper.
pub fn after_removal(res: Result<(), IoFailure>) -> (r: Direct<()>)
    ensures
        match res {
            Ok(()) => r == Direct::Done(()),
            Err(f) => if f.kind == IoKind::NotFound {
                r == Direct::Done(())
            } else if f.kind == IoKind::PermissionDenied {
                r is Helper
            } else {
                r matches Direct::Fail(e) && e.is_io("remove state dir"@, f)
            },
        },
{
    match res {
        Ok(()) => Direct::Done(()),
        Err(f) => match f.kind {
            IoKind::NotFound => Direct::Done(()),
            IoKind::PermissionDenied => Direct::Helper,
            _ => Direct::Fail(Error::io("remove state dir", f)),
        },
    }
}

/// What to do after trying to copy a layer: what the caller may not copy takes
/// a helper, which starts afresh.
pub fn after_copy(res: Result<u64, IoFailure>) -> (r: Direct<u64>)
    ensures
        match res {
            Ok(n) => r == Direct::Done(n),
            Err(f) => if f.kind == IoKind::PermissionDenied {
                r is Helper
            } else {
                r matches Direct::Fail(e) && e.is_io("copy layer"@, f)
            },
        },
{
    match res {
        Ok(n) => Direct::Done(n),
        Err(f) => match f.kind {
            IoKind::PermissionDenied => Direct::Helper,
            _ => Direct::Fail(Error::io("copy layer", f)),
        },
    }
}

// --- the helper's side -------------------------------------------------------

/// The role that a process was started in.
#[derive(Debug, Clone, Copy, PartialEq, Eq, Structural)]
pub enum Role {
    /// None: the program runs as usual.
    Program,
    /// Set a sandbox up.
    Setup,
    /// Find out whether user namespaces are available.
    Probe,
    /// Remove a state directory.
    Cleanup,
    /// Copy a layer.
    Copy,
    /// One that there is not.
    Unknown,
}

/// The role that the value of `REEXEC_ENV` asks for.
pub fn role(mode: Option<&str>) -> (r: Role)
    ensures
        r == match mode {
            None => Role::Program,
            Some(m) => if m@ == "setup"@ {
                Role::Setup
            } else if m@ == "probe"@ {
                Role::Probe
            } else if m@ == "cleanup"@ {
                Role::Cleanup
            } else if m@ == "copy"@ {
                Role::Copy
            } else {
                Role::Unknown
            },
        },
{
    match mode {
        None => Role::Program,
        Some(m) => if same(m, MODE_SETUP) {
            Role::Setup
        } else if same(m, MODE_PROBE) {
            Role::Probe
        } else if same(m, MODE_CLEANUP) {
            Role::Cleanup
        } else if same(m, MODE_COPY) {
            Role::Copy
        } else {
            Role::Unknown
        },
    }
}

/// Exit status of a process in a role that there is not.
pub const EXIT_UNKNOWN_ROLE: i32 = 2;

/// Exit status of a probe that found no user namespaces.
pub const EXIT_NO_USERNS: i32 = 3;

/// What to say of a role that there is not.
pub fn unknown_role(mode: &str) -> (r: String)
    ensures
        r@ == "draug-ns: unknown re-exec mode "@ + text::debug_text(mode@),
{
    let mut m: String = copied("draug-ns: unknown re-exec mode ");
    m.append(quoted(mode).as_str());
    m
}

/// What to say where user namespaces are not available.
pub fn probe_failed(why: &str) -> (r: String)
    ensures
        r@ == "unshare(CLONE_NEWUSER) failed: "@ + why@
            + ". Unprivileged user namespaces appear to be disabled (check `sysctl kernel.unprivileged_userns_clone` on Debian-family kernels, `sysctl user.max_user_namespaces`, and any seccomp/AppArmor policy of the containing environment)."@,
{
    let mut m: String = copied("unshare(CLONE_NEWUSER) failed: ");
    m.append(why);
    m.append(
        ". Unprivileged user namespaces appear to be disabled (check `sysctl kernel.unprivileged_userns_clone` on Debian-family kernels, `sysctl user.max_user_namespaces`, and any seccomp/AppArmor policy of the containing environment).",
    );
    m
}

/// What came of running a probe.
pub enum ProbeRun {
    NotStarted(IoFailure),
    Succeeded,
    /// What it wrote.
    Failed(Vec<u8>),
}

/// Whether user namespaces are available, by what a probe came to.
pub fn userns_available(run: ProbeRun) -> (r: Result<(), String>)
    ensures
        match run {
            ProbeRun::Succeeded => r is Ok,
            ProbeRun::NotStarted(f) => r matches Err(m) && m@
                == "failed to re-exec self for probe: "@ + f.message@,
            ProbeRun::Failed(b) => r matches Err(m) && m@ == text::trimmed(text::lossy_utf8(b@)),
        },
{
    match run {
        ProbeRun::Succeeded => Ok(()),
        ProbeRun::NotStarted(f) => {
            let mut m: String = copied("failed to re-exec self for probe: ");
            m.append(f.message.as_str());
            Err(m)
        },
        ProbeRun::Failed(b) => {
            let said: String = from_utf8_lossy(b.as_slice());
            Err(copied(trim(said.as_str())))
        },
    }
}

/// A text as one line: every line break is a space.
pub open spec fn on_one_line(s: Seq<char>) -> Seq<char> {
    s.map_values(
        |c: char|
            if c == '\n' {
                ' '
            } else {
                c
            },
    )
}

/// The line that reports a failure to the host.
pub fn err_line(msg: &str) -> (r: String)
    ensures
        r@ == "err "@ + on_one_line(msg@),
        r@.len() == 4 + msg@.len(),
        forall|i: int|
            0 <= i < msg@.len() ==> r@[4 + i] == (if #[trigger] msg@[i] == '\n' {
                ' '
            } else {
                msg@[i]
            }),
{
    proof {
        reveal_strlit("err ");
    }
    let v: Vec<char> = chars_of(msg);
    let mut s: String = copied("err ");
    let mut i: usize = 0;
    assert(on_one_line(msg@).take(0) =~= Seq::<char>::empty());
    while i < v.len()
        invariant
            i <= v@.len(),
            v@ == msg@,
            s@ == "err "@ + on_one_line(msg@).take(i as int),
        decreases v@.len() - i,
    {
        let c: char = if v[i] == '\n' {
            ' '
        } else {
            v[i]
        };
        s.push(c);
        assert(on_one_line(msg@).take(i + 1) =~= on_one_line(msg@).take(i as int).push(c));
        assert(s@ =~= "err "@ + on_one_line(msg@).take(i + 1));
        i += 1;
    }
    assert(on_one_line(msg@).take(i as int) =~= on_one_line(msg@));
    s
}

/// A failure is reported in one line, and the host takes all of it for a
/// failure's reason.
pub proof fn law_failure_is_one_line(msg: Seq<char>)
    ensures
        forall|i: int|
            0 <= i < ("err "@ + on_one_line(msg)).len() ==> #[trigger] ("err "@ + on_one_line(
                msg,
            ))[i] != '\n',
        text::begins("err "@ + on_one_line(msg), "err "@),
        ("err "@ + on_one_line(msg)).skip(4) == on_one_line(msg),
{
    reveal_strlit("err ");
    let l = "err "@ + on_one_line(msg);
    assert(l.take(4) =~= "err "@);
    assert(l.skip(4) =~= on_one_line(msg));
}

/// The host told the helper to go on.
pub fn told_to_go(line: Option<&str>) -> (r: bool)
    ensures
        r == (line matches Some(l) && text::trimmed(l@) == "go"@),
{
    match line {
        Some(l) => same(trim(l), "go"),
        None => false,
    }
}

/// The step that a helper is at.
#[derive(Debug, Clone, Copy, PartialEq, Eq, Structural)]
pub enum HelperStage {
    /// Check its arguments.
    Start,
    /// Enter a user namespace.
    Unshare,
    /// Wait to be told to go on.
    Await,
    /// Do the work.
    Work,
    /// Done.
    Done,
    /// Failed.
    Failed,
}

/// The stage after `s`.
pub fn helper_next(s: HelperStage, ok: bool) -> (r: HelperStage)
    ensures
        r == (if !ok && s != HelperStage::Done {
            HelperStage::Failed
        } else {
            match s {
                HelperStage::Start => HelperStage::Unshare,
                HelperStage::Unshare => HelperStage::Await,
                HelperStage::Await => HelperStage::Work,
                HelperStage::Work | HelperStage::Done => HelperStage::Done,
                HelperStage::Failed => HelperStage::Failed,
            }
        }),
{
    match s {
        HelperStage::Done => HelperStage::Done,
        _ if !ok => HelperStage::Failed,
        HelperStage::Start => HelperStage::Unshare,
        HelperStage::Unshare => HelperStage::Await,
        HelperStage::Await => HelperStage::Work,
        HelperStage::Work => HelperStage::Done,
        HelperStage::Failed => HelperStage::Failed,
    }
}

/// Why the cleanup helper failed at stage `s`; `why` is what the system said.
pub open spec fn cleanup_reason(s: HelperStage, dir: Seq<char>, why: Seq<char>) -> Seq<char> {
    match s {
        HelperStage::Start => "cleanup: no directory given"@,
        HelperStage::Unshare => "cleanup: unshare(CLONE_NEWUSER): "@ + why,
        HelperStage::Await => "cleanup: host did not confirm uid mapping"@,
        _ => "cleanup: remove "@ + dir + ": "@ + why,
    }
}

/// Why the cleanup helper failed at stage `s`.
pub fn cleanup_failed(s: HelperStage, dir: &str, why: &str) -> (r: String)
    ensures
        r@ == cleanup_reason(s, dir@, why@),
        s == HelperStage::Start ==> r@ == "cleanup: no directory given"@,
        s == HelperStage::Unshare ==> r@ == "cleanup: unshare(CLONE_NEWUSER): "@ + why@,
        s == HelperStage::Await ==> r@ == "cleanup: host did not confirm uid mapping"@,
        s == HelperStage::Work ==> r@ == "cleanup: remove "@ + dir@ + ": "@ + why@,
{
    match s {
        HelperStage::Start => copied("cleanup: no directory given"),
        HelperStage::Unshare => {
            let mut m: String = copied("cleanup: unshare(CLONE_NEWUSER): ");
            m.append(why);
            m
        },
        HelperStage::Await => copied("cleanup: host did not confirm uid mapping"),
        _ => {
            let mut m: String = copied("cleanup: remove ");
            m.append(dir);
            m.append(": ");
            m.append(why);
            m
        },
    }
}

/// Whether the cleanup helper's removal worked: a directory that is not there
/// is as good as removed.
pub fn cleaned_up(res: &Result<(), IoFailure>) -> (r: bool)
    ensures
        r == match *res {
            Ok(()) => true,
            Err(f) => f.kind == IoKind::NotFound,
        },
{
    match res {
        Ok(()) => true,
        Err(f) => match f.kind {
            IoKind::NotFound => true,
            _ => false,
        },
    }
}

/// Why the copy helper failed at stage `s`; `why` is what the system said.
pub open spec fn copy_reason(s: HelperStage, why: Seq<char>) -> Seq<char> {
    match s {
        HelperStage::Start => "copy: missing source or destination"@,
        HelperStage::Unshare => "copy: unshare(CLONE_NEWUSER): "@ + why,
        HelperStage::Await => "copy: host did not confirm uid mapping"@,
        _ => "copy: "@ + why,
    }
}

/// Why the copy helper failed at stage `s`.
pub fn copy_failed(s: HelperStage, why: &str) -> (r: String)
    ensures
        r@ == copy_reason(s, why@),
        s == HelperStage::Start ==> r@ == "copy: missing source or destination"@,
        s == HelperStage::Unshare ==> r@ == "copy: unshare(CLONE_NEWUSER): "@ + why@,
        s == HelperStage::Await ==> r@ == "copy: host did not confirm uid mapping"@,
        s == HelperStage::Work ==> r@ == "copy: "@ + why@,
{
    match s {
        HelperStage::Start => copied("copy: missing source or destination"),
        HelperStage::Unshare => {
            let mut m: String = copied("copy: unshare(CLONE_NEWUSER): ");
            m.append(why);
            m
        },
        HelperStage::Await => copied("copy: host did not confirm uid mapping"),
        _ => {
            let mut m: String = copied("copy: ");
            m.append(why);
            m
        },
    }
}

/// The line by which the copy helper reports the bytes it copied.
pub fn copy_done(bytes: u64) -> (r: String)
    ensures
        r@ == "done "@ + text::decimal(bytes as nat),
{
    let mut m: String = copied("done ");
    m.append(decimal_text(bytes).as_str());
    m
}

/// The host reads back the bytes that the copy helper reports.
pub proof fn law_copied_bytes_are_reported(bytes: u64)
    ensures
        ({
            let line = "done "@ + text::decimal(bytes as nat);
            &&& text::begins(line, "done "@)
            &&& line != "unshared"@
            &&& text::parsed(text::trimmed(line.skip(5)), 10, u64::MAX as int) == Some(bytes as int)
        }),
{
    reveal_strlit("done ");
    reveal_strlit("unshared");
    let d = text::decimal(bytes as nat);
    let line = "done "@ + d;
    assert(line.take(5) =~= "done "@);
    assert(line[0] == 'd');
    assert(line.skip(5) =~= d);
    text::lemma_digits(bytes as nat, 10);
    assert(!text::is_space(d[0]) && !text::is_space(d[d.len() - 1]));
    assert(text::trim_start_of(d) == d);
    assert(text::trim_end_of(d) == d);
    text::law_number_roundtrip(bytes as nat, 10, u64::MAX as int);
}

} // verus!
