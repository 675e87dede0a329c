//! Which process is a sandbox's guest, and whether it runs.
//!
//! A guest is recorded by its process number and its start time, because
//! process numbers are used again.

use vstd::prelude::*;

use crate::error::Error;
use crate::text;
use crate::text::{copied, decimal_text, parse_number, same, split_last, words};

verus! {

/// What `/proc/<pid>/stat` says of a process.
#[derive(Debug, Clone, Copy, PartialEq, Eq, Structural)]
pub struct ProcStat {
    /// When it started, in clock ticks since boot.
    pub starttime: u64,
    /// Whether it has ended and waits to be reaped.
    pub zombie: bool,
}

/// What the text of `/proc/<pid>/stat` says. The command in it can hold spaces
/// and brackets; the fields go on after the last `)`, the state first and the
/// start time nineteen fields further on.
pub open spec fn stat_of(content: Seq<char>) -> Option<ProcStat> {
    match text::after_last(content, ')') {
        None => None,
        Some(rest) => {
            let w = text::words_of(rest);
            if w.len() < 20 {
                None
            } else {
                match text::parsed(w[19], 10, u64::MAX as int) {
                    Some(n) => Some(ProcStat { starttime: n as u64, zombie: w[0] == "Z"@ }),
                    None => None,
                }
            }
        },
    }
}

/// What the text of `/proc/<pid>/stat` says.
pub fn proc_stat(content: &str) -> (r: Option<ProcStat>)
    ensures
        r == stat_of(content@),
        forall|before: Seq<char>, rest: Seq<char>|
            content@ == #[trigger] (before + seq![')'] + rest) && !rest.contains(')') ==> (r matches Some(
                s,
            ) <==> text::words_of(rest).len() >= 20 && text::parsed(
                text::words_of(rest)[19],
                10,
                u64::MAX as int,
            ) is Some) && (r matches Some(s) ==> text::parsed(
                text::words_of(rest)[19],
                10,
                u64::MAX as int,
            ) == Some(s.starttime as int) && (s.zombie <==> text::words_of(rest)[0] == "Z"@)),
        !content@.contains(')') ==> r is None,
{
    proof {
        assert forall|before: Seq<char>, rest: Seq<char>|
            content@ == #[trigger] (before + seq![')'] + rest) && !rest.contains(
                ')',
            ) implies text::after_last(content@, ')') == Some(rest) by {
            text::law_after_the_last(before, rest, ')');
        }
        text::law_after_the_last(Seq::empty(), content@, ')');
        if let Some(t) = text::after_last(content@, ')') {
            let w = text::words_of(t);
            if w.len() >= 20 {
                text::lemma_parsed_range(w[19], 10, u64::MAX as int);
            }
        }
    }
    let rest: &str = match split_last(content, ')') {
        Some(t) => t,
        None => {
            return None;
        },
    };
    let w: Vec<String> = words(rest);
    assert(text::views(w@).len() == w@.len());
    if w.len() < 20 {
        return None;
    }
    assert(text::views(w@)[19] == w@[19]@);
    assert(text::views(w@)[0] == w@[0]@);
    match parse_number(w[19].as_str(), 10, u64::MAX) {
        Some(n) => Some(ProcStat { starttime: n, zombie: same(w[0].as_str(), "Z") }),
        None => None,
    }
}

/// When a process started; `None` for one that is gone.
pub fn proc_starttime(content: Option<&str>) -> (r: Option<u64>)
    ensures
        r == match content {
            Some(c) => match stat_of(c@) {
                Some(s) => Some(s.starttime),
                None => None,
            },
            None => None,
        },
{
    match content {
        Some(c) => match proc_stat(c) {
            Some(s) => Some(s.starttime),
            None => None,
        },
        None => None,
    }
}

// --- the record --------------------------------------------------------------

/// The record of a guest: process number and start time.
pub open spec fn pid_record(pid: u32, starttime: u64) -> Seq<char> {
    text::decimal(pid as nat) + " "@ + text::decimal(starttime as nat) + "\n"@
}

/// The guest that a record names.
pub open spec fn recorded(content: Seq<char>) -> Option<(u32, u64)> {
    let w = text::words_of(content);
    if w.len() < 2 {
        None
    } else {
        match (text::parsed(w[0], 10, u32::MAX as int), text::parsed(w[1], 10, u64::MAX as int)) {
            (Some(p), Some(s)) => Some((p as u32, s as u64)),
            _ => None,
        }
    }
}

/// The record of a guest.
pub fn write_record(pid: u32, starttime: u64) -> (r: String)
    ensures
        r@ == pid_record(pid, starttime),
        r@ == text::decimal(pid as nat) + " "@ + text::decimal(starttime as nat) + "\n"@,
{
    let mut s: String = decimal_text(pid as u64);
    s.append(" ");
    s.append(decimal_text(starttime).as_str());
    s.append("\n");
    s
}

/// The guest that a record names.
pub fn read_record(content: &str) -> (r: Option<(u32, u64)>)
    ensures
        r == recorded(content@),
        r is Some <==> text::words_of(content@).len() >= 2 && text::parsed(
            text::words_of(content@)[0],
            10,
            0xffff_ffff,
        ) is Some && text::parsed(text::words_of(content@)[1], 10, u64::MAX as int) is Some,
        r matches Some(g) ==> text::parsed(text::words_of(content@)[0], 10, 0xffff_ffff) == Some(
            g.0 as int,
        ) && text::parsed(text::words_of(content@)[1], 10, u64::MAX as int) == Some(g.1 as int),
{
    proof {
        text::lemma_parsed_range(text::words_of(content@)[0], 10, 0xffff_ffff);
        text::lemma_parsed_range(text::words_of(content@)[1], 10, u64::MAX as int);
    }
    let w: Vec<String> = words(content);
    assert(text::views(w@).len() == w@.len());
    if w.len() < 2 {
        return None;
    }
    assert(text::views(w@)[0] == w@[0]@);
    assert(text::views(w@)[1] == w@[1]@);
    match (parse_number(w[0].as_str(), 10, u32::MAX as u64), parse_number(
        w[1].as_str(),
        10,
        u64::MAX,
    )) {
        (Some(p), Some(s)) => Some((p as u32, s)),
        _ => None,
    }
}

/// A guest that was recorded is read back.
pub proof fn law_record_roundtrip(pid: u32, starttime: u64)
    ensures
        recorded(pid_record(pid, starttime)) == Some((pid, starttime)),
{
    let a = text::decimal(pid as nat);
    let b = text::decimal(starttime as nat);
    text::lemma_digits(pid as nat, 10);
    text::lemma_digits(starttime as nat, 10);
    text::law_number_roundtrip(pid as nat, 10, u32::MAX as int);
    text::law_number_roundtrip(starttime as nat, 10, u64::MAX as int);
    reveal_strlit(" ");
    reveal_strlit("\n");
    assert(pid_record(pid, starttime) =~= a + (" "@ + b + "\n"@));
    text::lemma_first_word(a, " "@ + b + "\n"@);
    assert((" "@ + b + "\n"@).skip(1) =~= b + "\n"@);
    text::lemma_first_word(b, "\n"@);
    assert("\n"@.skip(1) =~= Seq::<char>::empty());
    reveal_with_fuel(text::words_of, 2);
}

// --- liveness ----------------------------------------------------------------

/// Whether a recorded guest runs: the process is there, started when the
/// record says, and is no zombie. (A killed guest whose ancestor does not reap
/// lingers as one.)
pub open spec fn is_live(starttime: u64, stat: Option<ProcStat>) -> bool {
    stat matches Some(s) && s.starttime == starttime && !s.zombie
}

/// The process number of the guest that `pidfile` records, if it runs, given
/// what `/proc/<pid>/stat` holds for it.
pub fn read_live_guest(pidfile: Option<&str>, stat: Option<&str>) -> (r: Option<u32>)
    ensures
        r == match pidfile {
            Some(c) => match recorded(c@) {
                Some(g) => if is_live(
                    g.1,
                    match stat {
                        Some(s) => stat_of(s@),
                        None => None,
                    },
                ) {
                    Some(g.0)
                } else {
                    None
                },
                None => None,
            },
            None => None,
        },
        r is Some <==> (pidfile matches Some(c) && (recorded(c@) matches Some(g) && (stat matches Some(
            s,
        ) && (stat_of(s@) matches Some(now) && now.starttime == g.1 && !now.zombie)))),
        r matches Some(pid) ==> (pidfile matches Some(c) && (recorded(c@) matches Some(g) && pid
            == g.0)),
{
    let (pid, starttime): (u32, u64) = match pidfile {
        Some(c) => match read_record(c) {
            Some(g) => g,
            None => {
                return None;
            },
        },
        None => {
            return None;
        },
    };
    let now: Option<ProcStat> = match stat {
        Some(s) => proc_stat(s),
        None => None,
    };
    match now {
        Some(s) => if s.starttime == starttime && !s.zombie {
            Some(pid)
        } else {
            None
        },
        None => None,
    }
}

/// Whether a sandbox's guest runs.
pub fn guest_alive(pidfile: Option<&str>, stat: Option<&str>) -> (r: bool)
    ensures
        r == (pidfile matches Some(c) && (recorded(c@) matches Some(g) && is_live(
            g.1,
            match stat {
                Some(s) => stat_of(s@),
                None => None,
            },
        ))),
{
    read_live_guest(pidfile, stat).is_some()
}

// --- killing -----------------------------------------------------------------

/// How often to look whether a killed guest is gone.
pub const KILL_CHECKS: u32 = 100;

/// How long to wait between two looks, in milliseconds.
pub const KILL_PAUSE_MS: u64 = 50;

/// What to do after looking for a killed guest.
#[derive(Debug, Clone, Copy, PartialEq, Eq, Structural)]
pub enum KillStep {
    /// It is gone.
    Gone,
    /// Wait and look again.
    Wait,
    /// It will not go.
    GiveUp,
}

/// What to do after the look number `checks`, counted from one: a process that
/// is not there, or that is a zombie, is gone.
pub fn kill_step(checks: u32, stat: Option<ProcStat>) -> (r: KillStep)
    ensures
        r == (if stat is None || stat->0.zombie {
            KillStep::Gone
        } else if checks < 100 {
            KillStep::Wait
        } else {
            KillStep::GiveUp
        }),
{
    match stat {
        None => KillStep::Gone,
        Some(s) => if s.zombie {
            KillStep::Gone
        } else if checks < KILL_CHECKS {
            KillStep::Wait
        } else {
            KillStep::GiveUp
        },
    }
}

/// What is said of a guest that will not go.
pub fn kill_failed(pid: u32) -> (r: Error)
    ensures
        r.is_io_other(
            "kill sandbox"@,
            "guest pid "@ + text::decimal(pid as nat) + " did not exit after SIGKILL"@,
        ),
{
    let mut m: String = copied("guest pid ");
    m.append(decimal_text(pid as u64).as_str());
    m.append(" did not exit after SIGKILL");
    Error::io_other("kill sandbox", m.as_str())
}

} // verus!
