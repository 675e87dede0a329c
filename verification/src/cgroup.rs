//! Resource limits by cgroup v2.
//!
//! Only attempted when limits are set at all; a host without a delegated
//! cgroup v2 subtree gets an error that says what to do rather than limits
//! that nothing enforces.

use vstd::prelude::*;

use crate::error::{Error, IoFailure, IoKind};
use crate::limits::ResourceLimits;
use crate::paths;
use crate::paths::{join, strip_slashes};
use crate::text;
use crate::text::{copied, decimal_text, is_among, lines, same, strip_prefix, trim, words};

verus! {

/// Where the cgroup v2 hierarchy is mounted.
pub const CGROUP_ROOT: &'static str = "/sys/fs/cgroup";

/// A sandbox's cgroup.
#[derive(Debug)]
pub struct CgroupHandle {
    pub path: String,
}

// --- what the limits need ----------------------------------------------------

/// The controllers that the limits need.
pub open spec fn needed(l: ResourceLimits) -> Seq<Seq<char>> {
    (if l.memory_bytes is Some {
        seq!["memory"@]
    } else {
        Seq::empty()
    }) + (if l.cpu_millis is Some {
        seq!["cpu"@]
    } else {
        Seq::empty()
    }) + (if l.pids is Some {
        seq!["pids"@]
    } else {
        Seq::empty()
    })
}

/// The controllers that the limits need; none where no cgroup is needed.
pub fn controllers(l: &ResourceLimits) -> (r: Vec<&'static str>)
    ensures
        text::word_views(r@) == needed(*l),
        forall|i: int|
            0 <= i < r@.len() ==> ((#[trigger] r@[i])@ == "memory"@ && l.memory_bytes is Some) || (r@[i]@
                == "cpu"@ && l.cpu_millis is Some) || (r@[i]@ == "pids"@ && l.pids is Some),
        l.memory_bytes is Some ==> exists|i: int| 0 <= i < r@.len() && (#[trigger] r@[i])@ == "memory"@,
        l.cpu_millis is Some ==> exists|i: int| 0 <= i < r@.len() && (#[trigger] r@[i])@ == "cpu"@,
        l.pids is Some ==> exists|i: int| 0 <= i < r@.len() && (#[trigger] r@[i])@ == "pids"@,
{
    let mut v: Vec<&'static str> = Vec::new();
    if l.memory_bytes.is_some() {
        v.push("memory");
    }
    if l.cpu_millis.is_some() {
        v.push("cpu");
    }
    if l.pids.is_some() {
        v.push("pids");
    }
    proof {
        assert(text::word_views(v@) =~= needed(*l));
        let m: int = if l.memory_bytes is Some {
            1
        } else {
            0
        };
        let c: int = if l.cpu_millis is Some {
            1
        } else {
            0
        };
        if l.memory_bytes is Some {
            assert(v@[0]@ == "memory"@);
        }
        if l.cpu_millis is Some {
            assert(v@[m]@ == "cpu"@);
        }
        if l.pids is Some {
            assert(v@[m + c]@ == "pids"@);
        }
    }
    v
}

/// The files to write for the limits, with what they get. CPU time is a quota
/// for every tenth of a second: 1000 millicores, one full core, is all of it.
pub open spec fn limit_writes(l: ResourceLimits) -> Seq<(Seq<char>, Seq<char>)> {
    (match l.memory_bytes {
        Some(n) => seq![("memory.max"@, text::decimal(n as nat))],
        None => Seq::empty(),
    }) + (match l.pids {
        Some(n) => seq![("pids.max"@, text::decimal(n as nat))],
        None => Seq::empty(),
    }) + (match l.cpu_millis {
        Some(n) => seq![("cpu.max"@, text::decimal((n * 100) as nat) + " 100000"@)],
        None => Seq::empty(),
    })
}

/// What a list of files with their contents says.
pub open spec fn write_views(v: Seq<(&'static str, String)>) -> Seq<(Seq<char>, Seq<char>)> {
    v.map_values(|p: (&'static str, String)| (p.0@, p.1@))
}

/// Every limit that is set is written, as it is: the memory and the processes
/// as a number that reads back as the limit, CPU time as a quota whose part of
/// its period is that of the millicores in 1000. No file is written twice, and
/// none for a limit that is not set.
pub proof fn law_limits_are_written(l: ResourceLimits)
    ensures
        forall|i: int|
            0 <= i < limit_writes(l).len() && (#[trigger] limit_writes(l)[i]).0 == "memory.max"@ ==> (l.memory_bytes matches Some(
                n,
            ) && text::parsed(limit_writes(l)[i].1, 10, u64::MAX as int) == Some(n as int)),
        forall|i: int|
            0 <= i < limit_writes(l).len() && (#[trigger] limit_writes(l)[i]).0 == "pids.max"@ ==> (l.pids matches Some(n)
                && text::parsed(limit_writes(l)[i].1, 10, u64::MAX as int) == Some(n as int)),
        forall|i: int|
            0 <= i < limit_writes(l).len() && (#[trigger] limit_writes(l)[i]).0 == "cpu.max"@ ==> (l.cpu_millis matches Some(n)
                && exists|quota: Seq<char>, period: Seq<char>|
                limit_writes(l)[i].1 == #[trigger] (quota + seq![' '] + period) && text::parsed(
                    period,
                    10,
                    u64::MAX as int,
                ) == Some(100000int) && (text::parsed(quota, 10, u64::MAX as int) matches Some(q) && q
                    * 1000 == n * 100000)),
        forall|i: int|
            0 <= i < limit_writes(l).len() ==> (#[trigger] limit_writes(l)[i]).0 == "memory.max"@ || limit_writes(l)[i].0 == "pids.max"@
                || limit_writes(l)[i].0 == "cpu.max"@,
        forall|i: int, j: int| 0 <= i < j < limit_writes(l).len() ==> (#[trigger] limit_writes(l)[i]).0 != (#[trigger] limit_writes(l)[j]).0,
        l.memory_bytes is Some ==> exists|i: int|
            0 <= i < limit_writes(l).len() && (#[trigger] limit_writes(l)[i]).0 == "memory.max"@,
        l.pids is Some ==> exists|i: int| 0 <= i < limit_writes(l).len() && (#[trigger] limit_writes(l)[i]).0 == "pids.max"@,
        l.cpu_millis is Some ==> exists|i: int|
            0 <= i < limit_writes(l).len() && (#[trigger] limit_writes(l)[i]).0 == "cpu.max"@,
{
    let w = limit_writes(l);
    reveal_strlit("memory.max");
    reveal_strlit("pids.max");
    reveal_strlit("cpu.max");
    reveal_strlit(" 100000");
    assert("memory.max"@[0] == 'm' && "pids.max"@[0] == 'p' && "cpu.max"@[0] == 'c');
    let m: int = if l.memory_bytes is Some {
        1
    } else {
        0
    };
    let p: int = if l.pids is Some {
        1
    } else {
        0
    };
    if let Some(n) = l.memory_bytes {
        text::law_number_roundtrip(n as nat, 10, u64::MAX as int);
        assert(w[0] == ("memory.max"@, text::decimal(n as nat)));
    }
    if let Some(n) = l.pids {
        text::law_number_roundtrip(n as nat, 10, u64::MAX as int);
        assert(w[m] == ("pids.max"@, text::decimal(n as nat)));
    }
    if let Some(n) = l.cpu_millis {
        let quota = text::decimal((n * 100) as nat);
        let period = " 100000"@.skip(1);
        let t = quota + " 100000"@;
        text::law_number_roundtrip((n * 100) as nat, 10, u64::MAX as int);
        text::lemma_digits(100000, 10);
        reveal_with_fuel(text::digits_of, 7);
        assert(period =~= text::decimal(100000));
        text::law_number_roundtrip(100000, 10, u64::MAX as int);
        assert(t =~= quota + seq![' '] + period);
        assert(w[m + p] == ("cpu.max"@, t));
    }
}

/// The files to write for the limits, with what they get.
pub fn limit_files(l: &ResourceLimits) -> (r: Vec<(&'static str, String)>)
    ensures
        write_views(r@) == limit_writes(*l),
        forall|i: int|
            0 <= i < r@.len() && (#[trigger] r@[i]).0@ == "memory.max"@ ==> (l.memory_bytes matches Some(
                n,
            ) && text::parsed(r@[i].1@, 10, u64::MAX as int) == Some(n as int)),
        forall|i: int|
            0 <= i < r@.len() && (#[trigger] r@[i]).0@ == "pids.max"@ ==> (l.pids matches Some(n)
                && text::parsed(r@[i].1@, 10, u64::MAX as int) == Some(n as int)),
        forall|i: int|
            0 <= i < r@.len() && (#[trigger] r@[i]).0@ == "cpu.max"@ ==> (l.cpu_millis matches Some(n)
                && exists|quota: Seq<char>, period: Seq<char>|
                r@[i].1@ == #[trigger] (quota + seq![' '] + period) && text::parsed(
                    period,
                    10,
                    u64::MAX as int,
                ) == Some(100000int) && (text::parsed(quota, 10, u64::MAX as int) matches Some(q) && q
                    * 1000 == n * 100000)),
        forall|i: int|
            0 <= i < r@.len() ==> (#[trigger] r@[i]).0@ == "memory.max"@ || r@[i].0@ == "pids.max"@
                || r@[i].0@ == "cpu.max"@,
        forall|i: int, j: int| 0 <= i < j < r@.len() ==> (#[trigger] r@[i]).0@ != (#[trigger] r@[j]).0@,
        l.memory_bytes is Some ==> exists|i: int|
            0 <= i < r@.len() && (#[trigger] r@[i]).0@ == "memory.max"@,
        l.pids is Some ==> exists|i: int| 0 <= i < r@.len() && (#[trigger] r@[i]).0@ == "pids.max"@,
        l.cpu_millis is Some ==> exists|i: int|
            0 <= i < r@.len() && (#[trigger] r@[i]).0@ == "cpu.max"@,
{
    let mut v: Vec<(&'static str, String)> = Vec::new();
    if let Some(n) = l.memory_bytes {
        v.push(("memory.max", decimal_text(n)));
    }
    if let Some(n) = l.pids {
        v.push(("pids.max", decimal_text(n as u64)));
    }
    if let Some(n) = l.cpu_millis {
        let mut s: String = decimal_text(n as u64 * 100);
        s.append(" 100000");
        v.push(("cpu.max", s));
    }
    proof {
        assert(write_views(v@) =~= limit_writes(*l));
        law_limits_are_written(*l);
        let w = limit_writes(*l);
        assert forall|i: int| 0 <= i < v@.len() implies w[i] == (#[trigger] v@[i].0@, v@[i].1@) by {
            assert(write_views(v@)[i] == (v@[i].0@, v@[i].1@));
        }
        if l.memory_bytes is Some {
            let i = choose|i: int| 0 <= i < w.len() && (#[trigger] w[i]).0 == "memory.max"@;
            assert(v@[i].0@ == "memory.max"@);
        }
        if l.pids is Some {
            let i = choose|i: int| 0 <= i < w.len() && (#[trigger] w[i]).0 == "pids.max"@;
            assert(v@[i].0@ == "pids.max"@);
        }
        if l.cpu_millis is Some {
            let i = choose|i: int| 0 <= i < w.len() && (#[trigger] w[i]).0 == "cpu.max"@;
            assert(v@[i].0@ == "cpu.max"@);
        }
        assert forall|i: int, j: int| 0 <= i < j < v@.len() implies (#[trigger] v@[i]).0@ != (
        #[trigger] v@[j]).0@ by {
            assert(w[i].0 != w[j].0);
        }
    }
    v
}

// --- where the cgroup goes ---------------------------------------------------

/// The first line that speaks of the cgroup v2 hierarchy.
pub open spec fn v2_entry(lines: Seq<Seq<char>>) -> Option<Seq<char>>
    decreases lines.len(),
{
    if lines.len() == 0 {
        None
    } else if text::begins(lines[0], "0::"@) {
        Some(text::trimmed(lines[0].skip(3)))
    } else {
        v2_entry(lines.skip(1))
    }
}

/// The cgroup v2 entry of the text of `/proc/self/cgroup`.
pub fn parse_own_cgroup(content: &str) -> (r: Option<String>)
    ensures
        match v2_entry(text::lines_of(content@)) {
            Some(p) => r matches Some(x) && x@ == p,
            None => r is None,
        },
        r matches Some(x) ==> exists|i: int|
            0 <= i < text::lines_of(content@).len() && text::begins(
                #[trigger] text::lines_of(content@)[i],
                "0::"@,
            ) && x@ == text::trimmed(text::lines_of(content@)[i].skip(3)) && forall|j: int|
                0 <= j < i ==> !text::begins(#[trigger] text::lines_of(content@)[j], "0::"@),
        r is None ==> forall|i: int|
            0 <= i < text::lines_of(content@).len() ==> !text::begins(
                #[trigger] text::lines_of(content@)[i],
                "0::"@,
            ),
{
    let v: Vec<String> = lines(content);
    let ghost all = text::views(v@);
    let mut i: usize = 0;
    assert(all.skip(0) =~= all);
    proof {
        reveal_strlit("0::");
    }
    while i < v.len()
        invariant
            i <= v@.len(),
            all == text::views(v@),
            all == text::lines_of(content@),
            "0::"@.len() == 3,
            v2_entry(all) == v2_entry(all.skip(i as int)),
            forall|j: int| 0 <= j < i ==> !text::begins(#[trigger] all[j], "0::"@),
        decreases v@.len() - i,
    {
        assert(all.skip(i as int)[0] == v@[i as int]@);
        assert(all.skip(i as int).skip(1) =~= all.skip(i + 1));
        assert(all[i as int] == v@[i as int]@);
        if let Some(rest) = strip_prefix(v[i].as_str(), "0::") {
            return Some(copied(trim(rest)));
        }
        i += 1;
    }
    assert(all.skip(i as int) =~= Seq::<Seq<char>>::empty());
    None
}

/// What is said where there is no cgroup v2 hierarchy.
pub const NO_HIERARCHY: &'static str = "no cgroup v2 hierarchy found in /proc/self/cgroup; resource limits require the unified cgroup v2 hierarchy mounted at /sys/fs/cgroup";

/// The directory of this process's cgroup, by the text of `/proc/self/cgroup`.
pub fn own_cgroup_dir(content: &str) -> (r: Result<String, Error>)
    ensures
        match v2_entry(text::lines_of(content@)) {
            Some(p) => r matches Ok(d) && d@ == paths::under(CGROUP_ROOT@, paths::without_slashes(p)),
            None => r matches Err(e) && e.is_unsupported(NO_HIERARCHY@),
        },
        r matches Ok(d) ==> (v2_entry(text::lines_of(content@)) matches Some(p) && d@ == paths::under(
            "/sys/fs/cgroup"@,
            paths::without_slashes(p),
        )),
        r matches Err(e) ==> e.is_unsupported(
            "no cgroup v2 hierarchy found in /proc/self/cgroup; resource limits require the unified cgroup v2 hierarchy mounted at /sys/fs/cgroup"@,
        ),
{
    match parse_own_cgroup(content) {
        Some(p) => Ok(join(CGROUP_ROOT, strip_slashes(p.as_str()))),
        None => Err(Error::Unsupported(copied(NO_HIERARCHY))),
    }
}

/// What is said of a directory that is no cgroup v2 directory.
pub const LEGACY_LAYOUT: &'static str = " does not look like a cgroup v2 directory; this host appears to use the legacy (v1/hybrid) cgroup layout, which draug does not support for limits";

/// A cgroup v2 directory has a list of controllers.
pub fn check_cgroup_dir(dir: &str, has_controllers: bool) -> (r: Result<(), Error>)
    ensures
        if has_controllers {
            r is Ok
        } else {
            r matches Err(e) && e.is_unsupported(dir@ + LEGACY_LAYOUT@)
        },
        r matches Err(e) ==> e.is_unsupported(
            dir@
                + " does not look like a cgroup v2 directory; this host appears to use the legacy (v1/hybrid) cgroup layout, which draug does not support for limits"@,
        ),
{
    if has_controllers {
        return Ok(());
    }
    let mut m: String = copied(dir);
    m.append(LEGACY_LAYOUT);
    Err(Error::Unsupported(m))
}

/// The first of the wanted words that is not among the words there are.
pub open spec fn first_missing(wanted: Seq<Seq<char>>, there: Seq<Seq<char>>) -> Option<Seq<char>>
    decreases wanted.len(),
{
    if wanted.len() == 0 {
        None
    } else if !there.contains(wanted[0]) {
        Some(wanted[0])
    } else {
        first_missing(wanted.skip(1), there)
    }
}

/// What to do where a controller is missing.
pub const DELEGATE_ADVICE: &'static str = "). Resource limits need a delegated cgroup v2 subtree: on systemd hosts set Delegate=cpu memory pids for user@.service, or launch via `systemd-run --user --scope -p Delegate=yes ...`, or omit the limits";

/// Every controller that is needed is among those available in `base`.
pub fn check_controllers(base: &str, wanted: &Vec<&'static str>, available: &str) -> (r: Result<
    (),
    Error,
>)
    ensures
        match first_missing(text::word_views(wanted@), text::words_of(available@)) {
            None => r is Ok,
            Some(c) => r matches Err(e) && e.is_unsupported(
                "cgroup controller \""@ + c + "\" is not available in "@ + base@ + " (available: "@
                    + text::trimmed(available@) + DELEGATE_ADVICE@,
            ),
        },
        r is Ok <==> forall|i: int|
            0 <= i < wanted@.len() ==> text::words_of(available@).contains((#[trigger] wanted@[i])@),
        r is Err ==> exists|i: int|
            0 <= i < wanted@.len() && !text::words_of(available@).contains(wanted@[i]@) && (
            r matches Err(e) && e.is_unsupported(
                "cgroup controller \""@ + (#[trigger] wanted@[i])@ + "\" is not available in "@ + base@
                    + " (available: "@ + text::trimmed(available@)
                    + "). Resource limits need a delegated cgroup v2 subtree: on systemd hosts set Delegate=cpu memory pids for user@.service, or launch via `systemd-run --user --scope -p Delegate=yes ...`, or omit the limits"@,
            )),
{
    let there: Vec<String> = words(available);
    let ghost all = text::word_views(wanted@);
    let mut i: usize = 0;
    assert(all.skip(0) =~= all);
    while i < wanted.len()
        invariant
            i <= wanted@.len(),
            all == text::word_views(wanted@),
            text::views(there@) == text::words_of(available@),
            first_missing(all, text::words_of(available@)) == first_missing(
                all.skip(i as int),
                text::words_of(available@),
            ),
            forall|j: int|
                0 <= j < i ==> text::words_of(available@).contains((#[trigger] wanted@[j])@),
        decreases wanted@.len() - i,
    {
        assert(all.skip(i as int)[0] == wanted@[i as int]@);
        assert(all.skip(i as int).skip(1) =~= all.skip(i + 1));
        if !is_among(wanted[i], &there) {
            let mut m: String = copied("cgroup controller \"");
            m.append(wanted[i]);
            m.append("\" is not available in ");
            m.append(base);
            m.append(" (available: ");
            m.append(trim(available));
            m.append(DELEGATE_ADVICE);
            return Err(Error::Unsupported(m));
        }
        i += 1;
    }
    assert(all.skip(i as int) =~= Seq::<Seq<char>>::empty());
    Ok(())
}

/// The directory of a sandbox's cgroup, below this process's own.
pub fn sandbox_cgroup(base: &str, id: &str) -> (r: String)
    ensures
        r@ == paths::under(base@, "draug-"@ + id@),
{
    let mut name: String = copied("draug-");
    name.append(id);
    join(base, name.as_str())
}

// --- enabling controllers ----------------------------------------------------

/// The words with a `+` before each, and a space between them.
pub open spec fn with_plus(v: Seq<Seq<char>>) -> Seq<char>
    decreases v.len(),
{
    if v.len() == 0 {
        Seq::empty()
    } else if v.len() == 1 {
        "+"@ + v[0]
    } else {
        with_plus(v.drop_last()) + " "@ + "+"@ + v.last()
    }
}

/// Each controller is enabled by its name behind a plus sign, and one more is
/// one more word.
pub proof fn law_each_controller_is_enabled(v: Seq<Seq<char>>, w: Seq<char>)
    ensures
        with_plus(Seq::empty()) == Seq::<char>::empty(),
        with_plus(seq![w]) == seq!['+'] + w,
        v.len() > 0 ==> with_plus(v.push(w)) == with_plus(v) + seq![' ', '+'] + w,
{
    reveal_strlit("+");
    reveal_strlit(" ");
    assert("+"@ =~= seq!['+']);
    assert(v.push(w).drop_last() =~= v);
    if v.len() > 0 {
        assert(with_plus(v.push(w)) =~= with_plus(v) + seq![' ', '+'] + w);
    }
}

/// What to write to enable those controllers below a cgroup.
pub fn enable_payload(v: &Vec<&'static str>) -> (r: String)
    ensures
        r@ == with_plus(text::word_views(v@)),
{
    let mut s: String = String::new();
    let ghost all = text::word_views(v@);
    let mut i: usize = 0;
    assert(all.take(0) =~= Seq::<Seq<char>>::empty());
    assert(s@ =~= Seq::<char>::empty());
    while i < v.len()
        invariant
            i <= v@.len(),
            all == text::word_views(v@),
            s@ == with_plus(all.take(i as int)),
        decreases v@.len() - i,
    {
        assert(all.take(i + 1).drop_last() =~= all.take(i as int));
        assert(all.take(i + 1).last() == v@[i as int]@);
        if i > 0 {
            s.append(" ");
        }
        s.append("+");
        s.append(v[i]);
        assert(s@ =~= with_plus(all.take(i + 1)));
        i += 1;
    }
    assert(all.take(i as int) =~= all);
    s
}

/// What came of enabling controllers.
pub enum SubtreeWrite {
    Written,
    /// The cgroup still holds processes itself.
    Busy,
    Failed(IoFailure),
}

/// What to do about it.
pub enum EnableStep {
    /// They are enabled.
    Done,
    /// Move every process to a child cgroup, and try again.
    Migrate,
    /// It failed.
    Fail(Error),
}

/// What to do where cgroups may not be managed.
pub const NOT_DELEGATED: &'static str = " — the subtree is not delegated to this user. On systemd hosts enable delegation (Delegate=cpu memory pids in user@.service drop-in) or launch via `systemd-run --user --scope -p Delegate=yes ...`, or omit the resource limits";

/// What a failure to enable controllers below `base` comes to.
pub open spec fn is_subtree_error(e: Error, f: IoFailure, base: Seq<char>) -> bool {
    if f.kind == IoKind::PermissionDenied {
        e.is_unsupported("not allowed to manage cgroups under "@ + base + NOT_DELEGATED@)
    } else {
        e.is_io("enable cgroup controllers"@, f)
    }
}

/// What a failure to enable controllers below `base` comes to.
pub fn map_subtree_err(f: IoFailure, base: &str) -> (r: Error)
    ensures
        is_subtree_error(r, f, base@),
        f.kind == IoKind::PermissionDenied ==> r.is_unsupported(
            "not allowed to manage cgroups under "@ + base@
                + " — the subtree is not delegated to this user. On systemd hosts enable delegation (Delegate=cpu memory pids in user@.service drop-in) or launch via `systemd-run --user --scope -p Delegate=yes ...`, or omit the resource limits"@,
        ),
        f.kind != IoKind::PermissionDenied ==> r.is_io("enable cgroup controllers"@, f),
{
    match f.kind {
        IoKind::PermissionDenied => {
            let mut m: String = copied("not allowed to manage cgroups under ");
            m.append(base);
            m.append(NOT_DELEGATED);
            Error::Unsupported(m)
        },
        _ => Error::io("enable cgroup controllers", f),
    }
}

/// What to do after trying to enable controllers below `base`. A cgroup that
/// holds processes itself cannot have any; once `migrated`, it holds none, and
/// being busy is a failure like any other.
pub fn enable_controllers(w: SubtreeWrite, migrated: bool, base: &str, busy: IoFailure) -> (r:
    EnableStep)
    ensures
        match w {
            SubtreeWrite::Written => r is Done,
            SubtreeWrite::Busy => if migrated {
                r matches EnableStep::Fail(e) && is_subtree_error(e, busy, base@)
            } else {
                r is Migrate
            },
            SubtreeWrite::Failed(f) => r matches EnableStep::Fail(e) && is_subtree_error(
                e,
                f,
                base@,
            ),
        },
{
    match w {
        SubtreeWrite::Written => EnableStep::Done,
        SubtreeWrite::Busy => if migrated {
            EnableStep::Fail(map_subtree_err(busy, base))
        } else {
            EnableStep::Migrate
        },
        SubtreeWrite::Failed(f) => EnableStep::Fail(map_subtree_err(f, base)),
    }
}

/// Whether the child cgroup for migrated processes is there.
pub fn leaf_ready(res: Result<(), IoFailure>) -> (r: Result<(), Error>)
    ensures
        match res {
            Ok(()) => r is Ok,
            Err(f) => if f.kind == IoKind::AlreadyExists {
                r is Ok
            } else {
                r matches Err(e) && e.is_io("create leaf cgroup"@, f)
            },
        },
{
    match res {
        Ok(()) => Ok(()),
        Err(f) => match f.kind {
            IoKind::AlreadyExists => Ok(()),
            _ => Err(Error::io("create leaf cgroup", f)),
        },
    }
}

// --- freezing and removing ---------------------------------------------------

/// The file by which a cgroup is frozen and thawed.
pub const FREEZE_FILE: &'static str = "cgroup.freeze";

/// What that file gets.
pub fn freeze_value(frozen: bool) -> (r: &'static str)
    ensures
        r@ == (if frozen {
            "1"@
        } else {
            "0"@
        }),
{
    if frozen {
        "1"
    } else {
        "0"
    }
}

/// Whether a cgroup is frozen, by the contents of that file.
pub fn is_frozen(content: Option<&str>) -> (r: bool)
    ensures
        r == (content matches Some(c) && text::trimmed(c@) == "1"@),
{
    match content {
        Some(c) => same(trim(c), "1"),
        None => false,
    }
}

/// How often to try to remove a cgroup.
pub const REMOVE_TRIES: u32 = 20;

/// How long to wait between two tries, in milliseconds.
pub const REMOVE_PAUSE_MS: u64 = 50;

/// Whether to try again to remove a cgroup after the try number `tries`,
/// counted from one. Its processes were killed, but may take a moment to go.
pub fn try_again(tries: u32, res: &Result<(), IoFailure>) -> (r: bool)
    ensures
        r == match *res {
            Ok(()) => false,
            Err(f) => f.kind != IoKind::NotFound && tries < REMOVE_TRIES,
        },
        r == (tries < 20 && (*res matches Err(f) && f.kind != IoKind::NotFound)),
{
    match res {
        Ok(()) => false,
        Err(f) => match f.kind {
            IoKind::NotFound => false,
            _ => tries < REMOVE_TRIES,
        },
    }
}

// --- laws --------------------------------------------------------------------

/// A cgroup is needed exactly where something is to be written to it.
pub proof fn law_cgroup_only_for_limits(l: ResourceLimits)
    ensures
        needed(l).len() == 0 <==> limit_writes(l).len() == 0,
        needed(l).len() == limit_writes(l).len(),
{
}

} // verus!
