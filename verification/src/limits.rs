//! Resource limits of a sandbox.

use vstd::prelude::*;

use crate::json;
use crate::json::{elements, members, number_in, sole_member, span_in};
use crate::text;
use crate::text::{copied, decimal_text};

verus! {

/// A span of time: whole seconds, and nanoseconds below one second.
#[derive(Debug, Clone, Copy, PartialEq, Eq, Structural)]
pub struct TimeSpan {
    pub secs: u64,
    pub nanos: u32,
}

impl TimeSpan {
    /// A span of whole seconds.
    pub fn from_secs(secs: u64) -> (r: TimeSpan)
        ensures
            r == (TimeSpan { secs, nanos: 0 }),
    {
        TimeSpan { secs, nanos: 0 }
    }
}

/// Resource limits for a sandbox. All optional; `None` means unlimited.
#[derive(Debug, Clone, Copy, PartialEq, Eq, Structural)]
pub struct ResourceLimits {
    /// CPU budget in millicores; 1000 is one full core (cgroup `cpu.max`).
    pub cpu_millis: Option<u32>,
    /// Memory ceiling in bytes (cgroup `memory.max`).
    pub memory_bytes: Option<u64>,
    /// Maximum number of processes and threads (cgroup `pids.max`).
    pub pids: Option<u32>,
    /// Quota for the sandbox's writable layer, in bytes.
    pub disk_bytes: Option<u64>,
    /// Whole-sandbox wall-clock deadline, enforced host-side.
    pub wall_time: Option<TimeSpan>,
}

/// The limits of a sandbox without limits.
pub open spec fn no_limits() -> ResourceLimits {
    ResourceLimits {
        cpu_millis: None,
        memory_bytes: None,
        pids: None,
        disk_bytes: None,
        wall_time: None,
    }
}

impl ResourceLimits {
    /// No limits at all.
    pub fn unlimited() -> (r: ResourceLimits)
        ensures
            r == no_limits(),
            r.cpu_millis is None && r.memory_bytes is None && r.pids is None && r.disk_bytes is None
                && r.wall_time is None,
    {
        ResourceLimits {
            cpu_millis: None,
            memory_bytes: None,
            pids: None,
            disk_bytes: None,
            wall_time: None,
        }
    }
}

impl Default for ResourceLimits {
    fn default() -> (r: ResourceLimits)
        ensures
            r == no_limits(),
    {
        ResourceLimits::unlimited()
    }
}

// --- the JSON form -----------------------------------------------------------
//
// The registry keeps the limits as one JSON object, every limit a member. An
// array of the limits in their order is read as well.

/// An optional 32-bit limit as a 64-bit one.
pub open spec fn wide(n: Option<u32>) -> Option<u64> {
    match n {
        Some(n) => Some(n as u64),
        None => None,
    }
}

/// An optional span of time in its two parts.
pub open spec fn span_parts(t: Option<TimeSpan>) -> Option<(u64, u32)> {
    match t {
        Some(t) => Some((t.secs, t.nanos)),
        None => None,
    }
}

/// The limits as members of an object.
pub open spec fn limit_members(l: ResourceLimits) -> Seq<(Seq<char>, Seq<char>)> {
    seq![
        ("cpu_millis"@, json::number_text(wide(l.cpu_millis))),
        ("memory_bytes"@, json::number_text(l.memory_bytes)),
        ("pids"@, json::number_text(wide(l.pids))),
        ("disk_bytes"@, json::number_text(l.disk_bytes)),
        ("wall_time"@, json::span_text(span_parts(l.wall_time))),
    ]
}

/// The limits as JSON.
pub open spec fn limits_text(l: ResourceLimits) -> Seq<char> {
    json::object_text(limit_members(l))
}

/// A limit that was read and that is at most `max`.
pub open spec fn up_to(n: Option<Option<u64>>, max: u64) -> bool {
    n matches Some(n) && (n matches Some(n) ==> n <= max)
}

/// The limits that five values stand for, each a number or no limit; no limits
/// at all where one could not be read or is too large.
pub open spec fn limits_in(
    cpu: Option<Option<u64>>,
    memory: Option<Option<u64>>,
    pids: Option<Option<u64>>,
    disk: Option<Option<u64>>,
    wall: Option<Option<(u64, u32)>>,
) -> ResourceLimits {
    if up_to(cpu, u32::MAX as u64) && up_to(memory, u64::MAX) && up_to(pids, u32::MAX as u64)
        && up_to(disk, u64::MAX) && wall is Some {
        ResourceLimits {
            cpu_millis: match cpu->0 {
                Some(n) => Some(n as u32),
                None => None,
            },
            memory_bytes: memory->0,
            pids: match pids->0 {
                Some(n) => Some(n as u32),
                None => None,
            },
            disk_bytes: disk->0,
            wall_time: match wall->0 {
                Some(t) => Some(TimeSpan { secs: t.0, nanos: t.1 }),
                None => None,
            },
        }
    } else {
        no_limits()
    }
}

/// What a value stands for as a limit, if there is one.
pub open spec fn number_at(v: Option<Seq<char>>) -> Option<Option<u64>> {
    match v {
        Some(v) => json::number_value(v),
        None => Some(None),
    }
}

/// What a value stands for as a span of time, if there is one.
pub open spec fn span_at(v: Option<Seq<char>>) -> Option<Option<(u64, u32)>> {
    match v {
        Some(v) => json::span_value(v),
        None => Some(None),
    }
}

/// The limits that the members `ms` stand for: each is there at most once, and
/// other members do not matter.
pub open spec fn limits_by_name(ms: Seq<(Seq<char>, Seq<char>)>) -> ResourceLimits {
    match (
        json::sole(ms, "cpu_millis"@),
        json::sole(ms, "memory_bytes"@),
        json::sole(ms, "pids"@),
        json::sole(ms, "disk_bytes"@),
        json::sole(ms, "wall_time"@),
    ) {
        (Some(c), Some(m), Some(p), Some(d), Some(w)) => limits_in(
            number_at(c),
            number_at(m),
            number_at(p),
            number_at(d),
            span_at(w),
        ),
        _ => no_limits(),
    }
}

/// The limits that the elements `vs` stand for: all five of them.
pub open spec fn limits_in_order(vs: Seq<Seq<char>>) -> ResourceLimits {
    if vs.len() == 5 {
        limits_in(
            json::number_value(vs[0]),
            json::number_value(vs[1]),
            json::number_value(vs[2]),
            json::number_value(vs[3]),
            json::span_value(vs[4]),
        )
    } else {
        no_limits()
    }
}

/// The limits that the JSON text `text` stands for; none at all where it is
/// neither an object nor an array.
pub open spec fn limits_from(text: Seq<char>) -> ResourceLimits {
    match (json::object_members(text), json::array_elements(text)) {
        (Some(ms), _) => limits_by_name(ms),
        (None, Some(vs)) => limits_in_order(vs),
        (None, None) => no_limits(),
    }
}

fn fits(n: &Option<Option<u64>>, max: u64) -> (r: bool)
    ensures
        r == up_to(*n, max),
{
    match n {
        Some(Some(n)) => *n <= max,
        Some(None) => true,
        None => false,
    }
}

fn narrowed(n: Option<Option<u64>>) -> (r: Option<u32>)
    requires
        up_to(n, u32::MAX as u64),
    ensures
        wide(r) == n->0,
{
    match n {
        Some(Some(n)) => Some(n as u32),
        _ => None,
    }
}

/// The limits that five values stand for, as they were read: a number, no
/// limit, or nothing that makes sense, which voids them all.
pub fn limits_of(
    cpu: Option<Option<u64>>,
    memory: Option<Option<u64>>,
    pids: Option<Option<u64>>,
    disk: Option<Option<u64>>,
    wall: Option<Option<(u64, u32)>>,
) -> (r: ResourceLimits)
    ensures
        r == limits_in(cpu, memory, pids, disk, wall),
        cpu is None || memory is None || pids is None || disk is None || wall is None || (
        cpu->0 matches Some(n) && n > 0xffff_ffff) || (pids->0 matches Some(n) && n > 0xffff_ffff)
            ==> r.cpu_millis is None && r.memory_bytes is None && r.pids is None && r.disk_bytes is None
            && r.wall_time is None,
        cpu is Some && memory is Some && pids is Some && disk is Some && wall is Some && (
        cpu->0 matches Some(n) ==> n <= 0xffff_ffff) && (pids->0 matches Some(n) ==> n <= 0xffff_ffff)
            ==> r.memory_bytes == memory->0 && r.disk_bytes == disk->0 && (r.cpu_millis is Some
            <==> cpu->0 is Some) && (cpu->0 matches Some(n) ==> r.cpu_millis->0 == n) && (r.pids is Some
            <==> pids->0 is Some) && (pids->0 matches Some(n) ==> r.pids->0 == n) && (r.wall_time is Some
            <==> wall->0 is Some) && (wall->0 matches Some(t) ==> r.wall_time->0.secs == t.0
            && r.wall_time->0.nanos == t.1),
{
    if !fits(&cpu, u32::MAX as u64) || !fits(&pids, u32::MAX as u64) {
        return ResourceLimits::unlimited();
    }
    match (memory, disk, wall) {
        (Some(m), Some(d), Some(w)) => ResourceLimits {
            cpu_millis: narrowed(cpu),
            memory_bytes: m,
            pids: narrowed(pids),
            disk_bytes: d,
            wall_time: match w {
                Some(t) => Some(TimeSpan { secs: t.0, nanos: t.1 }),
                None => None,
            },
        },
        _ => ResourceLimits::unlimited(),
    }
}

fn read_number_at(v: &Option<String>) -> (r: Option<Option<u64>>)
    ensures
        r == number_at(json::view_of(*v)),
        forall|n: Option<u64>|
            json::view_of(*v) == Some(#[trigger] json::number_text(n)) ==> r == Some(n),
{
    match v {
        Some(v) => number_in(v.as_str()),
        None => Some(None),
    }
}

fn read_span_at(v: &Option<String>) -> (r: Option<Option<(u64, u32)>>)
    ensures
        r == span_at(json::view_of(*v)),
        forall|t: Option<(u64, u32)>|
            json::view_of(*v) == Some(#[trigger] json::span_text(t)) && (t matches Some(p) ==> p.1
                < 1_000_000_000) ==> r == Some(t),
{
    match v {
        Some(v) => span_in(v.as_str()),
        None => Some(None),
    }
}

/// The limits that the members of an object stand for.
fn read_members(ms: &Vec<(String, String)>) -> (r: ResourceLimits)
    ensures
        r == limits_by_name(text::pair_views(ms@)),
        forall|l: ResourceLimits|
            l.wf() && text::pair_views(ms@) == #[trigger] limit_members(l) ==> r == l,
{
    proof {
        assert forall|l: ResourceLimits|
            text::pair_views(ms@) == #[trigger] limit_members(l) implies one_of_each(
            text::pair_views(ms@),
            l,
        ) by {
            lemma_one_of_each(l);
        }
    }
    match (
        sole_member(ms, "cpu_millis"),
        sole_member(ms, "memory_bytes"),
        sole_member(ms, "pids"),
        sole_member(ms, "disk_bytes"),
        sole_member(ms, "wall_time"),
    ) {
        (Some(c), Some(m), Some(p), Some(d), Some(w)) => limits_of(
            read_number_at(&c),
            read_number_at(&m),
            read_number_at(&p),
            read_number_at(&d),
            read_span_at(&w),
        ),
        _ => ResourceLimits::unlimited(),
    }
}

/// Among the members `ms`, each limit of `l` is there once.
spec fn one_of_each(ms: Seq<(Seq<char>, Seq<char>)>, l: ResourceLimits) -> bool {
    &&& json::sole(ms, "cpu_millis"@) == Some(Some(json::number_text(wide(l.cpu_millis))))
    &&& json::sole(ms, "memory_bytes"@) == Some(Some(json::number_text(l.memory_bytes)))
    &&& json::sole(ms, "pids"@) == Some(Some(json::number_text(wide(l.pids))))
    &&& json::sole(ms, "disk_bytes"@) == Some(Some(json::number_text(l.disk_bytes)))
    &&& json::sole(ms, "wall_time"@) == Some(Some(json::span_text(span_parts(l.wall_time))))
}

proof fn lemma_one_of_each(l: ResourceLimits)
    ensures
        one_of_each(limit_members(l), l),
        json::readable(limit_members(l)),
{
    reveal_strlit("cpu_millis");
    reveal_strlit("memory_bytes");
    reveal_strlit("pids");
    reveal_strlit("disk_bytes");
    reveal_strlit("wall_time");
    assert("cpu_millis"@[0] == 'c' && "memory_bytes"@[0] == 'm' && "pids"@[0] == 'p');
    assert("disk_bytes"@[0] == 'd' && "wall_time"@[0] == 'w');
    let ms = limit_members(l);
    let m4 = ms.drop_last();
    let m3 = m4.drop_last();
    let m2 = m3.drop_last();
    let m1 = m2.drop_last();
    assert(ms.last() == ms[4] && m4.last() == ms[3] && m3.last() == ms[2] && m2.last() == ms[1]
        && m1.last() == ms[0]);
    reveal_with_fuel(json::sole, 6);
    assert(json::plain("cpu_millis"@));
    assert(json::plain("memory_bytes"@));
    assert(json::plain("pids"@));
    assert(json::plain("disk_bytes"@));
    assert(json::plain("wall_time"@));
}

impl TimeSpan {
    /// The nanoseconds are less than a second.
    pub open spec fn wf(self) -> bool {
        self.nanos < 1_000_000_000
    }
}

impl ResourceLimits {
    /// The deadline is a proper span of time.
    pub open spec fn wf(self) -> bool {
        self.wall_time matches Some(t) ==> t.wf()
    }

    /// The limits as JSON.
    pub fn to_json(&self) -> (r: String)
        ensures
            r@ == limits_text(*self),
            r@ == "{\"cpu_millis\":"@ + (match self.cpu_millis {
                Some(n) => text::decimal(n as nat),
                None => "null"@,
            }) + ",\"memory_bytes\":"@ + (match self.memory_bytes {
                Some(n) => text::decimal(n as nat),
                None => "null"@,
            }) + ",\"pids\":"@ + (match self.pids {
                Some(n) => text::decimal(n as nat),
                None => "null"@,
            }) + ",\"disk_bytes\":"@ + (match self.disk_bytes {
                Some(n) => text::decimal(n as nat),
                None => "null"@,
            }) + ",\"wall_time\":"@ + (match self.wall_time {
                Some(t) => "{\"secs\":"@ + text::decimal(t.secs as nat) + ",\"nanos\":"@
                    + text::decimal(t.nanos as nat) + "}"@,
                None => "null"@,
            }) + "}"@,
    {
        let mut s: String = copied("{\"cpu_millis\":");
        push_number(&mut s, widened(self.cpu_millis));
        s.append(",\"memory_bytes\":");
        push_number(&mut s, self.memory_bytes);
        s.append(",\"pids\":");
        push_number(&mut s, widened(self.pids));
        s.append(",\"disk_bytes\":");
        push_number(&mut s, self.disk_bytes);
        s.append(",\"wall_time\":");
        push_span(&mut s, self.wall_time);
        s.append("}");
        proof {
            lemma_heads();
            lemma_limits_text(*self);
        }
        s
    }

    /// The limits that a JSON text stands for; none at all where it stands
    /// for no limits. What `to_json` wrote is read back.
    pub fn from_json(text: &str) -> (r: ResourceLimits)
        ensures
            r == limits_from(text@),
            forall|l: ResourceLimits| l.wf() && text@ == #[trigger] limits_text(l) ==> r == l,
            json::object_members(text@) is None && json::array_elements(text@) is None ==> r
                == no_limits(),
            json::object_members(text@) is None ==> (json::array_elements(text@) matches Some(vs) ==> r == (
            if vs.len() == 5 {
                limits_in(
                    json::number_value(vs[0]),
                    json::number_value(vs[1]),
                    json::number_value(vs[2]),
                    json::number_value(vs[3]),
                    json::span_value(vs[4]),
                )
            } else {
                no_limits()
            })),
    {
        proof {
            assert forall|l: ResourceLimits| text@ == #[trigger] limits_text(l) implies text@
                == json::object_text(limit_members(l)) && json::readable(limit_members(l)) by {
                lemma_one_of_each(l);
            }
        }
        if let Some(ms) = members(text) {
            return read_members(&ms);
        }
        match elements(text) {
            Some(vs) => if vs.len() == 5 {
                limits_of(
                    number_in(vs[0].as_str()),
                    number_in(vs[1].as_str()),
                    number_in(vs[2].as_str()),
                    number_in(vs[3].as_str()),
                    span_in(vs[4].as_str()),
                )
            } else {
                ResourceLimits::unlimited()
            },
            None => ResourceLimits::unlimited(),
        }
    }
}

/// What is put before the value of each limit.
proof fn lemma_heads()
    ensures
        "{\"cpu_millis\":"@ == json::member_head('{', "cpu_millis"@),
        ",\"memory_bytes\":"@ == json::member_head(',', "memory_bytes"@),
        ",\"pids\":"@ == json::member_head(',', "pids"@),
        ",\"disk_bytes\":"@ == json::member_head(',', "disk_bytes"@),
        ",\"wall_time\":"@ == json::member_head(',', "wall_time"@),
        "}"@ == seq!['}'],
{
    reveal_strlit("cpu_millis");
    reveal_strlit("memory_bytes");
    reveal_strlit("pids");
    reveal_strlit("disk_bytes");
    reveal_strlit("wall_time");
    reveal_strlit("{\"cpu_millis\":");
    reveal_strlit(",\"memory_bytes\":");
    reveal_strlit(",\"pids\":");
    reveal_strlit(",\"disk_bytes\":");
    reveal_strlit(",\"wall_time\":");
    reveal_strlit("}");
    assert("{\"cpu_millis\":"@ =~= json::member_head('{', "cpu_millis"@));
    assert(",\"memory_bytes\":"@ =~= json::member_head(',', "memory_bytes"@));
    assert(",\"pids\":"@ =~= json::member_head(',', "pids"@));
    assert(",\"disk_bytes\":"@ =~= json::member_head(',', "disk_bytes"@));
    assert(",\"wall_time\":"@ =~= json::member_head(',', "wall_time"@));
    assert("}"@ =~= seq!['}']);
}

/// The limits as JSON, piece by piece.
proof fn lemma_limits_text(l: ResourceLimits)
    ensures
        limits_text(l) == json::member_head('{', "cpu_millis"@) + json::number_text(
            wide(l.cpu_millis),
        ) + json::member_head(',', "memory_bytes"@) + json::number_text(l.memory_bytes)
            + json::member_head(',', "pids"@) + json::number_text(wide(l.pids))
            + json::member_head(',', "disk_bytes"@) + json::number_text(l.disk_bytes)
            + json::member_head(',', "wall_time"@) + json::span_text(span_parts(l.wall_time))
            + seq!['}'],
{
    let ms = limit_members(l);
    let none = Seq::<char>::empty();
    let a1 = json::member_head('{', ms[0].0) + ms[0].1;
    let a2 = a1 + json::member_head(',', ms[1].0) + ms[1].1;
    let a3 = a2 + json::member_head(',', ms[2].0) + ms[2].1;
    let a4 = a3 + json::member_head(',', ms[3].0) + ms[3].1;
    assert(ms.skip(0) =~= ms);
    json::lemma_next_member(none, '{', ms, 0);
    json::lemma_next_member(a1, ',', ms, 1);
    json::lemma_next_member(a2, ',', ms, 2);
    json::lemma_next_member(a3, ',', ms, 3);
    json::lemma_next_member(a4, ',', ms, 4);
    assert(none + json::member_head('{', ms[0].0) =~= json::member_head('{', ms[0].0));
    assert(none + (seq!['{'] + json::members_text(ms)) =~= limits_text(l));
}

fn widened(n: Option<u32>) -> (r: Option<u64>)
    ensures
        r == wide(n),
{
    match n {
        Some(n) => Some(n as u64),
        None => None,
    }
}

fn push_number(s: &mut String, n: Option<u64>)
    ensures
        final(s)@ == old(s)@ + json::number_text(n),
{
    match n {
        Some(n) => {
            s.append(decimal_text(n).as_str());
        },
        None => {
            s.append("null");
        },
    }
}

fn push_span(s: &mut String, t: Option<TimeSpan>)
    ensures
        final(s)@ == old(s)@ + json::span_text(span_parts(t)),
{
    match t {
        Some(t) => {
            s.append("{\"secs\":");
            s.append(decimal_text(t.secs).as_str());
            s.append(",\"nanos\":");
            s.append(decimal_text(t.nanos as u64).as_str());
            s.append("}");
            assert(s@ =~= old(s)@ + json::span_text(span_parts(Some(t))));
        },
        None => {
            s.append("null");
        },
    }
}

} // verus!
