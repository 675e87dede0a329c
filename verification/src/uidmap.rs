//! User and group id mappings of a sandbox.
//!
//! Rootless, sandbox id 0 is the invoking user and sandbox ids from 1 are the
//! user's subordinate range, written by the setuid helpers `newuidmap` and
//! `newgidmap`. Real root maps every id to itself.

use vstd::prelude::*;

use crate::error::{Error, IoFailure, IoKind};
use crate::text;
use crate::text::{
    copied, decimal_text, from_utf8_lossy, lines, parse_number, same, split_once, starts_with,
    trim,
};

verus! {

/// The map that real root writes.
pub const IDENTITY_MAP: &'static str = "0 0 4294967295\n";

/// More sandbox ids than this are never mapped.
pub const MAX_SUB_IDS: u32 = 65_535;

/// A range of subordinate ids: the first, and how many.
pub type SubRange = (u32, u32);

/// The range that one line of a subordinate id file grants: `name:first:count`,
/// where the name is `user` or the number `numeric`. Comments, other users and
/// lines that make no sense grant nothing; neither does an empty range.
pub open spec fn granted(line: Seq<char>, user: Seq<char>, numeric: Seq<char>) -> Option<SubRange> {
    let t = text::trimmed(line);
    let a = text::until(t, ':');
    let rest = t.skip(a + 1);
    let b = text::until(rest, ':');
    if t.len() == 0 || text::begins(t, "#"@) || a >= t.len() || b >= rest.len() {
        None
    } else if t.take(a) != user && t.take(a) != numeric {
        None
    } else {
        match (
            text::parsed(rest.take(b), 10, u32::MAX as int),
            text::parsed(text::trimmed(rest.skip(b + 1)), 10, u32::MAX as int),
        ) {
            (Some(first), Some(count)) => if count == 0 {
                None
            } else {
                Some(
                    (
                        first as u32,
                        if count < MAX_SUB_IDS {
                            count as u32
                        } else {
                            MAX_SUB_IDS
                        },
                    ),
                )
            },
            _ => None,
        }
    }
}

/// The first range that the lines grant.
pub open spec fn first_granted(lines: Seq<Seq<char>>, user: Seq<char>, numeric: Seq<char>) -> Option<
    SubRange,
>
    decreases lines.len(),
{
    if lines.len() == 0 {
        None
    } else {
        match granted(lines[0], user, numeric) {
            Some(r) => Some(r),
            None => first_granted(lines.skip(1), user, numeric),
        }
    }
}

fn grant_of(line: &str, user: &str, numeric: &str) -> (r: Option<SubRange>)
    ensures
        r == granted(line@, user@, numeric@),
{
    let t: &str = trim(line);
    if t.is_empty() || starts_with(t, "#") {
        return None;
    }
    let (name, rest): (&str, &str) = match split_once(t, ':') {
        Some(p) => p,
        None => {
            return None;
        },
    };
    let (first, count): (&str, &str) = match split_once(rest, ':') {
        Some(p) => p,
        None => {
            return None;
        },
    };
    if !same(name, user) && !same(name, numeric) {
        return None;
    }
    match (parse_number(first, 10, u32::MAX as u64), parse_number(
        trim(count),
        10,
        u32::MAX as u64,
    )) {
        (Some(f), Some(c)) => if c == 0 {
            None
        } else if c < MAX_SUB_IDS as u64 {
            Some((f as u32, c as u32))
        } else {
            Some((f as u32, MAX_SUB_IDS))
        },
        _ => None,
    }
}

/// The range that the text of a subordinate id file grants `user`, by name or
/// by number.
pub fn parse_subid(content: &str, user: &str, numeric_id: u32) -> (r: Option<SubRange>)
    ensures
        r == first_granted(
            text::lines_of(content@),
            user@,
            text::decimal(numeric_id as nat),
        ),
{
    let numeric: String = decimal_text(numeric_id as u64);
    let v: Vec<String> = lines(content);
    let ghost all = text::views(v@);
    let mut i: usize = 0;
    assert(all.skip(0) =~= all);
    while i < v.len()
        invariant
            i <= v@.len(),
            all == text::views(v@),
            numeric@ == text::decimal(numeric_id as nat),
            first_granted(all, user@, numeric@) == first_granted(
                all.skip(i as int),
                user@,
                numeric@,
            ),
            all == text::lines_of(content@),
        decreases v@.len() - i,
    {
        assert(all.skip(i as int)[0] == v@[i as int]@);
        assert(all.skip(i as int).skip(1) =~= all.skip(i + 1));
        if let Some(g) = grant_of(v[i].as_str(), user, numeric.as_str()) {
            return Some(g);
        }
        i += 1;
    }
    assert(all.skip(i as int) =~= Seq::<Seq<char>>::empty());
    None
}

proof fn lemma_three_parts(name: Seq<char>, a: Seq<char>, b: Seq<char>)
    requires
        name.len() > 0 && !name.contains(':') && !text::is_space(name[0]) && name[0] != '#',
        forall|k: int| 0 <= k < a.len() ==> #[trigger] a[k] != ':',
        b.len() > 0 && !text::is_space(b[0]) && !text::is_space(b.last()),
    ensures
        ({
            let rest = a + seq![':'] + b;
            let line = name + seq![':'] + a + seq![':'] + b;
            &&& text::trimmed(line) == line
            &&& !text::begins(line, "#"@)
            &&& text::until(line, ':') == name.len()
            &&& line.len() > name.len()
            &&& line.take(name.len() as int) == name
            &&& line.skip(name.len() as int + 1) == rest
            &&& text::until(rest, ':') == a.len()
            &&& rest.len() > a.len()
            &&& rest.take(a.len() as int) == a
            &&& rest.skip(a.len() as int + 1) == b
            &&& text::trimmed(b) == b
        }),
{
    let rest = a + seq![':'] + b;
    let line = name + seq![':'] + a + seq![':'] + b;
    assert(line =~= name + seq![':'] + rest);
    assert(line[0] == name[0]);
    assert(line.last() == b.last());
    assert(text::trim_start_of(line) == line);
    assert(text::trim_end_of(line) == line);
    reveal_strlit("#");
    assert(line.take(1)[0] != "#"@[0]);
    assert forall|k: int| 0 <= k < name.len() implies line[k] != ':' by {
        assert(name.contains(name[k]));
        assert(line[k] == name[k]);
    }
    text::lemma_until_is(line, ':', name.len() as int);
    assert(line.take(name.len() as int) =~= name);
    assert(line.skip(name.len() as int + 1) =~= rest);
    assert forall|k: int| 0 <= k < a.len() implies rest[k] != ':' by {
        assert(rest[k] == a[k]);
    }
    text::lemma_until_is(rest, ':', a.len() as int);
    assert(rest.take(a.len() as int) =~= a);
    assert(rest.skip(a.len() as int + 1) =~= b);
    assert(text::trim_start_of(b) == b);
    assert(text::trim_end_of(b) == b);
}

/// A line that names the user, by name or by number, and gives a first id and
/// how many, grants just those, up to 65535; where none are given it grants
/// nothing. A line for somebody else grants nothing.
pub proof fn law_a_line_grants_its_range(
    name: Seq<char>,
    first: u32,
    count: u32,
    user: Seq<char>,
    numeric: Seq<char>,
)
    requires
        name.len() > 0,
        !name.contains(':'),
        !text::is_space(name[0]),
        name[0] != '#',
    ensures
        ({
            let line = name + seq![':'] + text::decimal(first as nat) + seq![':'] + text::decimal(
                count as nat,
            );
            granted(line, user, numeric) == (if (name == user || name == numeric) && count > 0 {
                Some(
                    (
                        first,
                        if count <= 65535 {
                            count
                        } else {
                            65535u32
                        },
                    ),
                )
            } else {
                None
            })
        }),
{
    let a = text::decimal(first as nat);
    let b = text::decimal(count as nat);
    text::lemma_digits(first as nat, 10);
    text::lemma_digits(count as nat, 10);
    text::law_number_roundtrip(first as nat, 10, u32::MAX as int);
    text::law_number_roundtrip(count as nat, 10, u32::MAX as int);
    assert forall|k: int| 0 <= k < a.len() implies #[trigger] a[k] != ':' by {
        assert(text::digit_value(a[k]) < 10);
    }
    assert(!text::is_space(b[0]) && !text::is_space(b[b.len() - 1]));
    lemma_three_parts(name, a, b);
}

/// The first line that grants anything decides.
pub proof fn law_first_grant_decides(lines: Seq<Seq<char>>, user: Seq<char>, numeric: Seq<char>)
    ensures
        first_granted(lines, user, numeric) is None <==> forall|i: int|
            0 <= i < lines.len() ==> granted(#[trigger] lines[i], user, numeric) is None,
        first_granted(lines, user, numeric) is Some ==> exists|i: int|
            0 <= i < lines.len() && granted(#[trigger] lines[i], user, numeric) == first_granted(
                lines,
                user,
                numeric,
            ) && forall|j: int|
                0 <= j < i ==> granted(#[trigger] lines[j], user, numeric) is None,
    decreases lines.len(),
{
    if lines.len() > 0 {
        let rest = lines.skip(1);
        law_first_grant_decides(rest, user, numeric);
        assert forall|i: int| 0 <= i < rest.len() implies rest[i] == lines[i + 1] by {}
        if granted(lines[0], user, numeric) is None {
            if first_granted(rest, user, numeric) is None {
                assert forall|i: int| 0 <= i < lines.len() implies granted(
                    #[trigger] lines[i],
                    user,
                    numeric,
                ) is None by {
                    if i > 0 {
                        assert(granted(rest[i - 1], user, numeric) is None);
                    }
                }
            } else {
                let k = choose|k: int|
                    0 <= k < rest.len() && granted(#[trigger] rest[k], user, numeric)
                        == first_granted(rest, user, numeric) && forall|j: int|
                        0 <= j < k ==> granted(#[trigger] rest[j], user, numeric) is None;
                assert(granted(lines[k + 1], user, numeric) == first_granted(lines, user, numeric));
                assert forall|j: int| 0 <= j < k + 1 implies granted(
                    #[trigger] lines[j],
                    user,
                    numeric,
                ) is None by {
                    if j > 0 {
                        assert(granted(rest[j - 1], user, numeric) is None);
                    }
                }
            }
        } else {
            assert(granted(lines[0], user, numeric) is Some);
        }
    }
}

/// A range that was granted is never empty, and never larger than what is
/// mapped.
pub proof fn law_granted_range_is_sound(lines: Seq<Seq<char>>, user: Seq<char>, numeric: Seq<char>)
    ensures
        first_granted(lines, user, numeric) matches Some(r) ==> 1 <= r.1 <= 65535,
    decreases lines.len(),
{
    if lines.len() > 0 {
        let t = text::trimmed(lines[0]);
        let rest = t.skip(text::until(t, ':') + 1);
        text::lemma_parsed_range(
            text::trimmed(rest.skip(text::until(rest, ':') + 1)),
            10,
            u32::MAX as int,
        );
        law_granted_range_is_sound(lines.skip(1), user, numeric);
    }
}

/// What is said where the file cannot be read.
pub open spec fn unreadable(file: Seq<char>, user: Seq<char>, why: Seq<char>) -> Seq<char> {
    "cannot read "@ + file + " ("@ + why
        + "); rootless sandboxes need a subordinate id range. Fix: add the line \""@ + user
        + ":100000:65536\" to "@ + file + " (see subuid(5))"@
}

/// What is said where the file grants nothing.
pub open spec fn ungranted(file: Seq<char>, user: Seq<char>) -> Seq<char> {
    "no subordinate id range for \""@ + user + "\" in "@ + file + ". Fix: add the line \""@ + user
        + ":100000:65536\" to "@ + file
        + " (see subuid(5)), or run `usermod --add-subuids 100000-165535 --add-subgids 100000-165535 "@
        + user + "`"@
}

/// The subordinate id range of `user`, given what reading `file` came to.
pub fn lookup_subid(
    file: &str,
    content: Result<String, IoFailure>,
    user: &str,
    numeric_id: u32,
) -> (r: Result<SubRange, Error>)
    ensures
        match content {
            Err(f) => r matches Err(e) && e.is_unsupported(unreadable(file@, user@, f.message@))
                && e.is_unsupported(
                "cannot read "@ + file@ + " ("@ + f.message@
                    + "); rootless sandboxes need a subordinate id range. Fix: add the line \""@
                    + user@ + ":100000:65536\" to "@ + file@ + " (see subuid(5))"@,
            ),
            Ok(c) => match first_granted(
                text::lines_of(c@),
                user@,
                text::decimal(numeric_id as nat),
            ) {
                Some(g) => r == Ok::<SubRange, Error>(g),
                None => r matches Err(e) && e.is_unsupported(ungranted(file@, user@))
                    && e.is_unsupported(
                    "no subordinate id range for \""@ + user@ + "\" in "@ + file@
                        + ". Fix: add the line \""@ + user@ + ":100000:65536\" to "@ + file@
                        + " (see subuid(5)), or run `usermod --add-subuids 100000-165535 --add-subgids 100000-165535 "@
                        + user@ + "`"@,
                ),
            },
        },
{
    let c: String = match content {
        Ok(c) => c,
        Err(f) => {
            let mut m: String = copied("cannot read ");
            m.append(file);
            m.append(" (");
            m.append(f.message.as_str());
            m.append("); rootless sandboxes need a subordinate id range. Fix: add the line \"");
            m.append(user);
            m.append(":100000:65536\" to ");
            m.append(file);
            m.append(" (see subuid(5))");
            return Err(Error::Unsupported(m));
        },
    };
    match parse_subid(c.as_str(), user, numeric_id) {
        Some(g) => Ok(g),
        None => {
            let mut m: String = copied("no subordinate id range for \"");
            m.append(user);
            m.append("\" in ");
            m.append(file);
            m.append(". Fix: add the line \"");
            m.append(user);
            m.append(":100000:65536\" to ");
            m.append(file);
            m.append(
                " (see subuid(5)), or run `usermod --add-subuids 100000-165535 --add-subgids 100000-165535 ",
            );
            m.append(user);
            m.append("`");
            Err(Error::Unsupported(m))
        },
    }
}

/// What the invoking user is called: by name, else by number.
pub fn user_label(name: Option<String>, uid: u32) -> (r: String)
    ensures
        r@ == match name {
            Some(n) => n@,
            None => text::decimal(uid as nat),
        },
{
    match name {
        Some(n) => n,
        None => decimal_text(uid as u64),
    }
}

// --- the mapping helpers -----------------------------------------------------

/// Real root maps every id to itself.
pub proof fn law_root_maps_every_id()
    ensures
        IDENTITY_MAP@ == "0 0 4294967295\n"@,
{
}

/// The arguments of a mapping helper: sandbox id 0 is the caller's, and sandbox
/// ids from 1 are the subordinate range.
pub open spec fn idmap_words(pid: u32, own_id: u32, range: SubRange) -> Seq<Seq<char>> {
    seq![
        text::decimal(pid as nat),
        "0"@,
        text::decimal(own_id as nat),
        "1"@,
        "1"@,
        text::decimal(range.0 as nat),
        text::decimal(range.1 as nat),
    ]
}

/// The arguments of a mapping helper.
pub fn idmap_args(pid: u32, own_id: u32, range: SubRange) -> (r: Vec<String>)
    ensures
        text::views(r@) == idmap_words(pid, own_id, range),
        r@.len() == 7,
        text::parsed(r@[0]@, 10, u32::MAX as int) == Some(pid as int),
        r@[1]@ == "0"@,
        text::parsed(r@[2]@, 10, u32::MAX as int) == Some(own_id as int),
        r@[3]@ == "1"@,
        r@[4]@ == "1"@,
        text::parsed(r@[5]@, 10, u32::MAX as int) == Some(range.0 as int),
        text::parsed(r@[6]@, 10, u32::MAX as int) == Some(range.1 as int),
{
    let mut v: Vec<String> = Vec::new();
    v.push(decimal_text(pid as u64));
    v.push(copied("0"));
    v.push(decimal_text(own_id as u64));
    v.push(copied("1"));
    v.push(copied("1"));
    v.push(decimal_text(range.0 as u64));
    v.push(decimal_text(range.1 as u64));
    proof {
        assert(text::views(v@) =~= idmap_words(pid, own_id, range));
        text::law_number_roundtrip(pid as nat, 10, u32::MAX as int);
        text::law_number_roundtrip(own_id as nat, 10, u32::MAX as int);
        text::law_number_roundtrip(range.0 as nat, 10, u32::MAX as int);
        text::law_number_roundtrip(range.1 as nat, 10, u32::MAX as int);
    }
    v
}

/// What came of running a mapping helper.
pub enum ToolRun {
    NotStarted(IoFailure),
    Succeeded,
    /// Its exit status in words, and what it wrote.
    Failed { status: String, stderr: Vec<u8> },
}

/// What is said where the helper is not installed.
pub const INSTALL_ADVICE: &'static str = " not found; install it (package `uidmap` on Debian/Ubuntu, `shadow-utils` on Fedora) to run rootless sandboxes";

/// What is said where the helper failed.
pub open spec fn idmap_failure(
    tool: Seq<char>,
    status: Seq<char>,
    stderr: Seq<u8>,
    user: Seq<char>,
    file: Seq<char>,
    range: SubRange,
) -> Seq<char> {
    tool + " failed ("@ + status + "): "@ + text::trimmed(text::lossy_utf8(stderr))
        + ". Check that "@ + file + " grants \""@ + user + "\" the range "@ + text::decimal(
        range.0 as nat,
    ) + ":"@ + text::decimal(range.1 as nat) + " and that "@ + tool
        + " is setuid root; see subuid(5)"@
}

/// What running a mapping helper comes to.
pub fn run_idmap(tool: &str, run: ToolRun, user: &str, file: &str, range: SubRange) -> (r: Result<
    (),
    Error,
>)
    ensures
        match run {
            ToolRun::Succeeded => r is Ok,
            ToolRun::NotStarted(f) => r matches Err(e) && if f.kind == IoKind::NotFound {
                e.is_unsupported(tool@ + INSTALL_ADVICE@)
            } else {
                e.is_io("run idmap helper"@, f)
            },
            ToolRun::Failed { status, stderr } => r matches Err(e) && e.is_unsupported(
                idmap_failure(tool@, status@, stderr@, user@, file@, range),
            ) && e.is_unsupported(
                tool@ + " failed ("@ + status@ + "): "@ + text::trimmed(text::lossy_utf8(stderr@))
                    + ". Check that "@ + file@ + " grants \""@ + user@ + "\" the range "@
                    + text::decimal(range.0 as nat) + ":"@ + text::decimal(range.1 as nat)
                    + " and that "@ + tool@ + " is setuid root; see subuid(5)"@,
            ),
        },
{
    match run {
        ToolRun::Succeeded => Ok(()),
        ToolRun::NotStarted(f) => match f.kind {
            IoKind::NotFound => {
                let mut m: String = copied(tool);
                m.append(INSTALL_ADVICE);
                Err(Error::Unsupported(m))
            },
            _ => Err(Error::io("run idmap helper", f)),
        },
        ToolRun::Failed { status, stderr } => {
            let said: String = from_utf8_lossy(stderr.as_slice());
            let mut m: String = copied(tool);
            m.append(" failed (");
            m.append(status.as_str());
            m.append("): ");
            m.append(trim(said.as_str()));
            m.append(". Check that ");
            m.append(file);
            m.append(" grants \"");
            m.append(user);
            m.append("\" the range ");
            m.append(decimal_text(range.0 as u64).as_str());
            m.append(":");
            m.append(decimal_text(range.1 as u64).as_str());
            m.append(" and that ");
            m.append(tool);
            m.append(" is setuid root; see subuid(5)");
            Err(Error::Unsupported(m))
        },
    }
}

} // verus!
