//! JSON texts, taken apart.
//!
//! An object is split into its members here, and an array into its elements,
//! so that members of the same name and members that nobody asked for can be
//! told. Where a single value ends, and what it is, is up to `serde_json`.

use vstd::prelude::*;

use crate::text;
use crate::text::{chars_of, copied, same, text_of};

verus! {

// --- single values -----------------------------------------------------------

/// A number as it is written, or `null`.
pub open spec fn number_text(n: Option<u64>) -> Seq<char> {
    match n {
        Some(n) => text::decimal(n as nat),
        None => "null"@,
    }
}

/// Seconds and nanoseconds as they are written, or `null`.
pub open spec fn span_text(t: Option<(u64, u32)>) -> Seq<char> {
    match t {
        Some(t) => "{\"secs\":"@ + text::decimal(t.0 as nat) + ",\"nanos\":"@ + text::decimal(
            t.1 as nat,
        ) + "}"@,
        None => "null"@,
    }
}

/// A name that stands for itself between quotes.
pub open spec fn plain(name: Seq<char>) -> bool {
    forall|i: int| 0 <= i < name.len() ==> 'a' <= #[trigger] name[i] <= 'z' || name[i] == '_'
}

/// A name as it is written.
pub open spec fn name_text(name: Seq<char>) -> Seq<char> {
    seq!['"'] + name + seq!['"']
}

/// `v` is a plain name, a number, a span of time or `null`, as it is written.
pub open spec fn written(v: Seq<char>) -> bool {
    ||| exists|name: Seq<char>| plain(name) && v == #[trigger] name_text(name)
    ||| exists|n: Option<u64>| v == #[trigger] number_text(n)
    ||| exists|t: Option<(u64, u32)>| v == #[trigger] span_text(t)
}

/// What can follow a value.
pub open spec fn closes(rest: Seq<char>) -> bool {
    rest.len() > 0 && (rest[0] == ':' || rest[0] == ',' || rest[0] == '}')
}

/// What a result that may hold a string comes to.
pub open spec fn view_of(r: Option<String>) -> Option<Seq<char>> {
    match r {
        Some(s) => Some(s@),
        None => None,
    }
}

/// The value that `s` begins with, with the white space before it.
pub uninterp spec fn front_value(s: Seq<char>) -> Option<Seq<char>>;

/// Finds the value that `s` begins with, with `serde_json::StreamDeserializer`
/// over `serde::de::IgnoredAny`.
///
/// Claimed: what comes out depends on the text alone; it is how the text
/// begins; and a value that is written as it is here is found whole where
/// something follows it that can.
#[verifier::external_body]
fn value_in_front(s: &str) -> (r: Option<String>)
    ensures
        view_of(r) == front_value(s@),
        r matches Some(v) ==> text::begins(s@, v@),
        forall|v: Seq<char>, rest: Seq<char>|
            s@ == #[trigger] (v + rest) && written(v) && closes(rest) ==> view_of(r) == Some(v),
{
    let mut values = serde_json::Deserializer::from_str(s).into_iter::<serde::de::IgnoredAny>();
    match values.next() {
        Some(Ok(_)) => Some(s[..values.byte_offset()].to_owned()),
        _ => None,
    }
}

/// The string that the JSON text `s` stands for, if it stands for one.
pub uninterp spec fn string_value(s: Seq<char>) -> Option<Seq<char>>;

/// Reads a string with `serde_json::from_str`.
///
/// Claimed: what comes out depends on the text alone, and a plain name is read
/// back as it was written.
#[verifier::external_body]
fn string_in(s: &str) -> (r: Option<String>)
    ensures
        view_of(r) == string_value(s@),
        forall|name: Seq<char>|
            plain(name) && s@ == #[trigger] name_text(name) ==> view_of(r) == Some(name),
{
    serde_json::from_str::<String>(s).ok()
}

/// What the JSON text `s` is as a number from 0 to 2^64 - 1 or `null`; none
/// where it is something else.
pub uninterp spec fn number_value(s: Seq<char>) -> Option<Option<u64>>;

/// Reads a number or `null` with `serde_json::from_str`.
///
/// Claimed: what comes out depends on the text alone, and what is written as it
/// is here is read back.
#[verifier::external_body]
pub(crate) fn number_in(s: &str) -> (r: Option<Option<u64>>)
    ensures
        r == number_value(s@),
        forall|n: Option<u64>| s@ == #[trigger] number_text(n) ==> r == Some(n),
{
    serde_json::from_str::<Option<u64>>(s).ok()
}

/// What the JSON text `s` is as a `std::time::Duration`, in seconds and
/// nanoseconds, or `null`; none where it is something else.
pub uninterp spec fn span_value(s: Seq<char>) -> Option<Option<(u64, u32)>>;

/// Reads a span of time or `null` with `serde_json::from_str`.
///
/// Claimed: what comes out depends on the text alone, and what is written as it
/// is here is read back, if the nanoseconds are less than a second.
#[verifier::external_body]
pub(crate) fn span_in(s: &str) -> (r: Option<Option<(u64, u32)>>)
    ensures
        r == span_value(s@),
        forall|t: Option<(u64, u32)>|
            s@ == #[trigger] span_text(t) && (t matches Some(p) ==> p.1 < 1_000_000_000) ==> r
                == Some(t),
{
    match serde_json::from_str::<Option<std::time::Duration>>(s) {
        Ok(Some(d)) => Some(Some((d.as_secs(), d.subsec_nanos()))),
        Ok(None) => Some(None),
        Err(_) => None,
    }
}

// --- marks and white space ---------------------------------------------------

/// White space between the parts of a JSON text.
pub open spec fn is_space(c: char) -> bool {
    c == ' ' || c == '\n' || c == '\t' || c == '\r'
}

/// `s` without the white space that it begins with.
pub open spec fn after_space(s: Seq<char>) -> Seq<char>
    decreases s.len(),
{
    if s.len() > 0 && is_space(s[0]) {
        after_space(s.skip(1))
    } else {
        s
    }
}

/// What follows the mark `c`, if `s` begins with it.
pub open spec fn after_mark(s: Seq<char>, c: char) -> Option<Seq<char>> {
    let t = after_space(s);
    if t.len() > 0 && t[0] == c {
        Some(t.skip(1))
    } else {
        None
    }
}

/// What follows the value that `s` begins with; nothing where none does.
pub open spec fn after_value(s: Seq<char>) -> Seq<char> {
    match front_value(s) {
        Some(v) if v.len() <= s.len() => s.skip(v.len() as int),
        _ => Seq::empty(),
    }
}

proof fn lemma_shorter(s: Seq<char>, c: char)
    ensures
        after_space(s).len() <= s.len(),
        after_mark(s, c) matches Some(t) ==> t.len() < s.len(),
    decreases s.len(),
{
    if s.len() > 0 && is_space(s[0]) {
        lemma_shorter(s.skip(1), c);
    }
}

/// The place in `v` where the white space from `from` on ends.
fn space_end(v: &Vec<char>, from: usize) -> (r: usize)
    requires
        from <= v@.len(),
    ensures
        from <= r <= v@.len(),
        after_space(v@.skip(from as int)) == v@.skip(r as int),
        forall|k: int|
            from <= k < r ==> (#[trigger] v@[k]) == ' ' || v@[k] == '\n' || v@[k] == '\t' || v@[k]
                == '\r',
        r < v@.len() ==> v@[r as int] != ' ' && v@[r as int] != '\n' && v@[r as int] != '\t'
            && v@[r as int] != '\r',
{
    let mut i: usize = from;
    while i < v.len() && (v[i] == ' ' || v[i] == '\n' || v[i] == '\t' || v[i] == '\r')
        invariant
            from <= i <= v@.len(),
            after_space(v@.skip(from as int)) == after_space(v@.skip(i as int)),
            forall|k: int|
                from <= k < i ==> (#[trigger] v@[k]) == ' ' || v@[k] == '\n' || v@[k] == '\t' || v@[k]
                    == '\r',
        decreases v@.len() - i,
    {
        assert(v@.skip(i as int)[0] == v@[i as int]);
        assert(v@.skip(i as int).skip(1) =~= v@.skip(i + 1));
        i += 1;
    }
    proof {
        if i < v.len() {
            assert(v@.skip(i as int)[0] == v@[i as int]);
        }
    }
    i
}

/// The place in `v` after the mark `c`, if that comes next from `from` on.
fn mark_end(v: &Vec<char>, from: usize, c: char) -> (r: Option<usize>)
    requires
        from <= v@.len(),
    ensures
        match r {
            Some(i) => from < i <= v@.len() && after_mark(v@.skip(from as int), c) == Some(
                v@.skip(i as int),
            ),
            None => after_mark(v@.skip(from as int), c) is None,
        },
{
    let i: usize = space_end(v, from);
    if i < v.len() {
        assert(v@.skip(i as int)[0] == v@[i as int]);
        if v[i] == c {
            assert(v@.skip(i as int).skip(1) =~= v@.skip(i + 1));
            return Some(i + 1);
        }
    }
    None
}

/// The value in `v` from `from` on, and where it ends.
fn value_end(v: &Vec<char>, from: usize) -> (r: Option<(String, usize)>)
    requires
        from <= v@.len(),
    ensures
        match r {
            Some(p) => from <= p.1 <= v@.len() && front_value(v@.skip(from as int)) == Some(p.0@)
                && after_value(v@.skip(from as int)) == v@.skip(p.1 as int),
            None => front_value(v@.skip(from as int)) is None,
        },
        forall|w: Seq<char>, rest: Seq<char>|
            v@.skip(from as int) == #[trigger] (w + rest) && written(w) && closes(rest) ==> (
            r matches Some(p) && p.0@ == w && v@.skip(p.1 as int) == rest),
{
    let s: String = text_of(v, from, v.len());
    assert(s@ =~= v@.skip(from as int));
    match value_in_front(s.as_str()) {
        Some(w) => {
            let n: usize = chars_of(w.as_str()).len();
            assert(s@.skip(n as int) =~= v@.skip(from + n));
            proof {
                assert forall|x: Seq<char>, rest: Seq<char>|
                    s@ == #[trigger] (x + rest) && written(x) && closes(rest) implies w@ == x
                    && v@.skip(from + n) == rest by {
                    assert((x + rest).skip(x.len() as int) =~= rest);
                }
            }
            Some((w, from + n))
        },
        None => None,
    }
}

// --- objects and arrays ------------------------------------------------------

/// The members, by name and value, that `s` holds up to the end of an object
/// and of the text; none where it does not read like that.
pub open spec fn members_in(s: Seq<char>) -> Option<Seq<(Seq<char>, Seq<char>)>>
    decreases s.len(),
{
    proof {
        lemma_member_shorter(s);
    }
    match (front_value(s), after_mark(after_value(s), ':')) {
        (Some(k), Some(t)) => match (string_value(k), front_value(t)) {
            (Some(name), Some(v)) => {
                let u = after_value(t);
                match (after_mark(u, '}'), after_mark(u, ',')) {
                    (Some(end), _) => if after_space(end).len() == 0 {
                        Some(seq![(name, v)])
                    } else {
                        None
                    },
                    (None, Some(more)) => after_first((name, v), members_in(more)),
                    (None, None) => None,
                }
            },
            _ => None,
        },
        _ => None,
    }
}

/// `first` and what follows it, if that could be read.
pub open spec fn after_first<A>(first: A, rest: Option<Seq<A>>) -> Option<Seq<A>> {
    after_all(seq![first], rest)
}

/// `all` and what follows them, if that could be read.
pub open spec fn after_all<A>(all: Seq<A>, rest: Option<Seq<A>>) -> Option<Seq<A>> {
    match rest {
        Some(rest) => Some(all + rest),
        None => None,
    }
}

/// What follows a member, or an element, is shorter than what began with it.
pub proof fn lemma_member_shorter(s: Seq<char>)
    ensures
        after_mark(after_value(s), ':') matches Some(t) ==> (after_mark(after_value(t), ',') matches Some(
            more,
        ) ==> more.len() < s.len()),
        after_mark(after_value(s), ',') matches Some(more) ==> more.len() < s.len(),
{
    lemma_shorter(after_value(s), ':');
    lemma_shorter(after_value(s), ',');
    if let Some(t) = after_mark(after_value(s), ':') {
        lemma_shorter(after_value(t), ',');
    }
}

/// The elements that `s` holds up to the end of an array and of the text; none
/// where it does not read like that.
pub open spec fn elements_in(s: Seq<char>) -> Option<Seq<Seq<char>>>
    decreases s.len(),
{
    proof {
        lemma_member_shorter(s);
    }
    match front_value(s) {
        Some(v) => match (after_mark(after_value(s), ']'), after_mark(after_value(s), ',')) {
            (Some(end), _) => if after_space(end).len() == 0 {
                Some(seq![v])
            } else {
                None
            },
            (None, Some(more)) => after_first(v, elements_in(more)),
            (None, None) => None,
        },
        None => None,
    }
}

/// A member as it is written.
pub open spec fn member_text(m: (Seq<char>, Seq<char>)) -> Seq<char> {
    name_text(m.0) + seq![':'] + m.1
}

/// Members as they are written, up to the end of the object.
pub open spec fn members_text(ms: Seq<(Seq<char>, Seq<char>)>) -> Seq<char>
    decreases ms.len(),
{
    if ms.len() == 0 {
        seq!['}']
    } else if ms.len() == 1 {
        member_text(ms[0]) + seq!['}']
    } else {
        member_text(ms[0]) + seq![','] + members_text(ms.skip(1))
    }
}

/// What is put before a member's value, after the mark `c`.
pub open spec fn member_head(c: char, name: Seq<char>) -> Seq<char> {
    seq![c] + name_text(name) + seq![':']
}

/// Members can be written one after another: what comes after `done` and the
/// mark `c` is the member at `k`, and then the rest.
pub(crate) proof fn lemma_next_member(
    done: Seq<char>,
    c: char,
    ms: Seq<(Seq<char>, Seq<char>)>,
    k: int,
)
    requires
        0 <= k < ms.len(),
    ensures
        done + (seq![c] + members_text(ms.skip(k))) == done + member_head(c, ms[k].0) + ms[k].1 + (
        if k + 1 == ms.len() {
            seq!['}']
        } else {
            seq![','] + members_text(ms.skip(k + 1))
        }),
{
    let rest = ms.skip(k);
    assert(rest[0] == ms[k]);
    assert(rest.skip(1) =~= ms.skip(k + 1));
    let tail = if k + 1 == ms.len() {
        seq!['}']
    } else {
        seq![','] + members_text(ms.skip(k + 1))
    };
    assert(members_text(rest) =~= member_text(ms[k]) + tail);
    assert(done + (seq![c] + (member_text(ms[k]) + tail)) =~= done + member_head(c, ms[k].0)
        + ms[k].1 + tail);
}

/// Members that can be read back: there are some, their names are plain, and
/// their values are written as they are here.
pub open spec fn readable(ms: Seq<(Seq<char>, Seq<char>)>) -> bool {
    &&& ms.len() > 0
    &&& forall|i: int| 0 <= i < ms.len() ==> plain((#[trigger] ms[i]).0) && written(ms[i].1)
}

/// What comes after the value of the first member.
spec fn rest_of_member(ms: Seq<(Seq<char>, Seq<char>)>) -> Seq<char> {
    if ms.len() == 1 {
        seq!['}']
    } else {
        seq![','] + members_text(ms.skip(1))
    }
}

/// `s` is how the members `ms`, which can be read back, are written, part by
/// part.
spec fn first_read(s: Seq<char>, ms: Seq<(Seq<char>, Seq<char>)>) -> bool {
    let tail = rest_of_member(ms);
    &&& ms.len() > 0
    &&& plain(ms[0].0)
    &&& s == name_text(ms[0].0) + (seq![':'] + (ms[0].1 + tail))
    &&& written(name_text(ms[0].0))
    &&& closes(seq![':'] + (ms[0].1 + tail))
    &&& after_mark(seq![':'] + (ms[0].1 + tail), ':') == Some(ms[0].1 + tail)
    &&& written(ms[0].1)
    &&& closes(tail)
    &&& ms.len() == 1 ==> after_mark(tail, '}') == Some(Seq::<char>::empty())
    &&& ms.len() > 1 ==> after_mark(tail, '}') is None && after_mark(tail, ',') == Some(
        members_text(ms.skip(1)),
    )
}

proof fn lemma_member_parts(ms: Seq<(Seq<char>, Seq<char>)>)
    requires
        readable(ms),
    ensures
        first_read(members_text(ms), ms),
{
    let tail = rest_of_member(ms);
    let named = seq![':'] + (ms[0].1 + tail);
    assert(plain(ms[0].0) && written(ms[0].1));
    assert(members_text(ms) =~= name_text(ms[0].0) + named);
    assert(named[0] == ':');
    assert(named.skip(1) =~= ms[0].1 + tail);
    if ms.len() == 1 {
        assert(tail.skip(1) =~= Seq::<char>::empty());
    } else {
        assert(tail[0] == ',');
        assert(tail.skip(1) =~= members_text(ms.skip(1)));
    }
}

/// What a result that may hold members comes to.
pub open spec fn members_of(r: Option<Vec<(String, String)>>) -> Option<
    Seq<(Seq<char>, Seq<char>)>,
> {
    match r {
        Some(ms) => Some(text::pair_views(ms@)),
        None => None,
    }
}

/// Reads the members in `v` from `from` on, up to the end of the object and of
/// the text. What was written here is read back.
fn read_members(v: &Vec<char>, from: usize) -> (r: Option<Vec<(String, String)>>)
    requires
        from <= v@.len(),
    ensures
        members_of(r) == members_in(v@.skip(from as int)),
        forall|ms: Seq<(Seq<char>, Seq<char>)>|
            v@.skip(from as int) == #[trigger] members_text(ms) && readable(ms) ==> members_of(r)
                == Some(ms),
{
    let mut all: Vec<(String, String)> = Vec::new();
    let mut i: usize = from;
    proof {
        assert(text::pair_views(all@) =~= Seq::empty());
        assert forall|ms: Seq<(Seq<char>, Seq<char>)>|
            v@.skip(from as int) == #[trigger] members_text(ms) && readable(ms) implies ms.take(0)
            =~= Seq::empty() && ms.skip(0) =~= ms by {}
        if let Some(rest) = members_in(v@.skip(from as int)) {
            assert(Seq::<(Seq<char>, Seq<char>)>::empty() + rest =~= rest);
        }
    }
    loop
        invariant
            from <= i <= v@.len(),
            members_in(v@.skip(from as int)) == after_all(
                text::pair_views(all@),
                members_in(v@.skip(i as int)),
            ),
            forall|ms: Seq<(Seq<char>, Seq<char>)>|
                v@.skip(from as int) == #[trigger] members_text(ms) && readable(ms) ==> all@.len()
                    < ms.len() && text::pair_views(all@) == ms.take(all@.len() as int) && v@.skip(
                    i as int,
                ) == members_text(ms.skip(all@.len() as int)),
        decreases v@.len() - i,
    {
        let ghost s = v@.skip(i as int);
        let ghost done = text::pair_views(all@);
        let ghost k = all@.len() as int;
        proof {
            assert forall|ms: Seq<(Seq<char>, Seq<char>)>|
                v@.skip(from as int) == #[trigger] members_text(ms) && readable(ms) implies first_read(
                s,
                ms.skip(k),
            ) by {
                assert forall|j: int| 0 <= j < ms.skip(k).len() implies plain(
                    (#[trigger] ms.skip(k)[j]).0,
                ) && written(ms.skip(k)[j].1) by {
                    assert(ms.skip(k)[j] == ms[k + j]);
                }
                lemma_member_parts(ms.skip(k));
            }
        }
        let (key, after_key): (String, usize) = match value_end(v, i) {
            Some(p) => p,
            None => {
                return None;
            },
        };
        let name: String = match string_in(key.as_str()) {
            Some(name) => name,
            None => {
                return None;
            },
        };
        let colon: usize = match mark_end(v, after_key, ':') {
            Some(j) => j,
            None => {
                return None;
            },
        };
        let (value, after): (String, usize) = match value_end(v, colon) {
            Some(p) => p,
            None => {
                return None;
            },
        };
        all.push((name, value));
        proof {
            assert(text::pair_views(all@) =~= done.push((name@, value@)));
            assert forall|ms: Seq<(Seq<char>, Seq<char>)>|
                v@.skip(from as int) == #[trigger] members_text(ms) && readable(ms) implies first_read(
                s,
                ms.skip(k),
            ) && text::pair_views(all@) == ms.take(k + 1) && v@.skip(after as int)
                == rest_of_member(ms.skip(k)) by {
                assert(ms.skip(k)[0] == ms[k]);
                assert(done.push(ms[k]) =~= ms.take(k + 1));
            }
        }
        if let Some(end) = mark_end(v, after, '}') {
            proof {
                assert forall|ms: Seq<(Seq<char>, Seq<char>)>|
                    v@.skip(from as int) == #[trigger] members_text(ms) && readable(
                        ms,
                    ) implies ms.take(k + 1) == ms && v@.skip(end as int).len() == 0 by {
                    assert(ms.skip(k).len() == 1);
                    assert(ms.take(k + 1) =~= ms);
                }
            }
            return if space_end(v, end) == v.len() {
                Some(all)
            } else {
                None
            };
        }
        match mark_end(v, after, ',') {
            Some(j) => {
                proof {
                    assert forall|ms: Seq<(Seq<char>, Seq<char>)>|
                        v@.skip(from as int) == #[trigger] members_text(ms) && readable(
                            ms,
                        ) implies k + 1 < ms.len() && v@.skip(j as int) == members_text(
                        ms.skip(k + 1),
                    ) by {
                        assert(ms.skip(k).len() > 1);
                        assert(ms.skip(k).skip(1) =~= ms.skip(k + 1));
                    }
                }
                i = j;
            },
            None => {
                return None;
            },
        }
    }
}

/// What a result that may hold elements comes to.
pub open spec fn elements_of(r: Option<Vec<String>>) -> Option<Seq<Seq<char>>> {
    match r {
        Some(vs) => Some(text::views(vs@)),
        None => None,
    }
}

/// Reads the elements in `v` from `from` on, up to the end of the array and of
/// the text.
fn read_elements(v: &Vec<char>, from: usize) -> (r: Option<Vec<String>>)
    requires
        from <= v@.len(),
    ensures
        elements_of(r) == elements_in(v@.skip(from as int)),
{
    let mut all: Vec<String> = Vec::new();
    let mut i: usize = from;
    proof {
        assert(text::views(all@) =~= Seq::empty());
        if let Some(rest) = elements_in(v@.skip(from as int)) {
            assert(Seq::<Seq<char>>::empty() + rest =~= rest);
        }
    }
    loop
        invariant
            from <= i <= v@.len(),
            elements_in(v@.skip(from as int)) == after_all(
                text::views(all@),
                elements_in(v@.skip(i as int)),
            ),
        decreases v@.len() - i,
    {
        let ghost done = text::views(all@);
        let (value, after): (String, usize) = match value_end(v, i) {
            Some(p) => p,
            None => {
                return None;
            },
        };
        all.push(value);
        assert(text::views(all@) =~= done.push(value@));
        if let Some(end) = mark_end(v, after, ']') {
            return if space_end(v, end) == v.len() {
                Some(all)
            } else {
                None
            };
        }
        match mark_end(v, after, ',') {
            Some(j) => {
                i = j;
            },
            None => {
                return None;
            },
        }
    }
}

// --- whole texts -------------------------------------------------------------

/// The members of the object that the text `s` is, if it is one.
pub open spec fn object_members(s: Seq<char>) -> Option<Seq<(Seq<char>, Seq<char>)>> {
    match after_mark(s, '{') {
        Some(t) => match after_mark(t, '}') {
            Some(end) => if after_space(end).len() == 0 {
                Some(Seq::empty())
            } else {
                None
            },
            None => members_in(t),
        },
        None => None,
    }
}

/// The elements of the array that the text `s` is, if it is one.
pub open spec fn array_elements(s: Seq<char>) -> Option<Seq<Seq<char>>> {
    match after_mark(s, '[') {
        Some(t) => match after_mark(t, ']') {
            Some(end) => if after_space(end).len() == 0 {
                Some(Seq::empty())
            } else {
                None
            },
            None => elements_in(t),
        },
        None => None,
    }
}

/// An object as it is written.
pub open spec fn object_text(ms: Seq<(Seq<char>, Seq<char>)>) -> Seq<char> {
    seq!['{'] + members_text(ms)
}

/// The members of an object, in their order. What was written is read back.
pub fn members(s: &str) -> (r: Option<Vec<(String, String)>>)
    ensures
        members_of(r) == object_members(s@),
        forall|ms: Seq<(Seq<char>, Seq<char>)>|
            s@ == #[trigger] object_text(ms) && readable(ms) ==> members_of(r) == Some(ms),
{
    let v: Vec<char> = chars_of(s);
    assert(v@.skip(0) =~= v@);
    proof {
        assert forall|ms: Seq<(Seq<char>, Seq<char>)>|
            s@ == #[trigger] object_text(ms) && readable(ms) implies after_mark(s@, '{') == Some(
            members_text(ms),
        ) && after_mark(members_text(ms), '}') is None by {
            assert(object_text(ms)[0] == '{');
            assert(object_text(ms).skip(1) =~= members_text(ms));
            lemma_member_parts(ms);
            assert(members_text(ms)[0] == '"');
        }
    }
    match mark_end(&v, 0, '{') {
        Some(i) => match mark_end(&v, i, '}') {
            Some(end) => if space_end(&v, end) == v.len() {
                let none: Vec<(String, String)> = Vec::new();
                assert(text::pair_views(none@) =~= Seq::empty());
                Some(none)
            } else {
                None
            },
            None => read_members(&v, i),
        },
        None => None,
    }
}

/// The elements of an array.
pub fn elements(s: &str) -> (r: Option<Vec<String>>)
    ensures
        elements_of(r) == array_elements(s@),
{
    let v: Vec<char> = chars_of(s);
    assert(v@.skip(0) =~= v@);
    match mark_end(&v, 0, '[') {
        Some(i) => match mark_end(&v, i, ']') {
            Some(end) => if space_end(&v, end) == v.len() {
                let none: Vec<String> = Vec::new();
                assert(text::views(none@) =~= Seq::empty());
                Some(none)
            } else {
                None
            },
            None => read_elements(&v, i),
        },
        None => None,
    }
}

/// The value of the member called `name`, or that there is none; nothing where
/// there are two.
pub open spec fn sole(ms: Seq<(Seq<char>, Seq<char>)>, name: Seq<char>) -> Option<
    Option<Seq<char>>,
>
    decreases ms.len(),
{
    if ms.len() == 0 {
        Some(None)
    } else if ms.last().0 != name {
        sole(ms.drop_last(), name)
    } else if sole(ms.drop_last(), name) == Some(None::<Seq<char>>) {
        Some(Some(ms.last().1))
    } else {
        None
    }
}

/// The value of the member called `name`, if there is just one.
pub fn sole_member(ms: &Vec<(String, String)>, name: &str) -> (r: Option<Option<String>>)
    ensures
        match r {
            Some(v) => sole(text::pair_views(ms@), name@) == Some(view_of(v)),
            None => sole(text::pair_views(ms@), name@) is None,
        },
        r matches Some(None) ==> forall|i: int| 0 <= i < ms@.len() ==> (#[trigger] ms@[i]).0@ != name@,
        r matches Some(Some(v)) ==> exists|i: int|
            0 <= i < ms@.len() && (#[trigger] ms@[i]).0@ == name@ && ms@[i].1@ == v@ && forall|j: int|
                0 <= j < ms@.len() && j != i ==> (#[trigger] ms@[j]).0@ != name@,
        r is None ==> exists|i: int, j: int|
            0 <= i < j < ms@.len() && (#[trigger] ms@[i]).0@ == name@ && (#[trigger] ms@[j]).0@ == name@,
{
    let ghost all = text::pair_views(ms@);
    let mut r: Option<Option<String>> = Some(None);
    let mut i: usize = 0;
    while i < ms.len()
        invariant
            i <= ms@.len(),
            all == text::pair_views(ms@),
            match r {
                Some(v) => sole(all.take(i as int), name@) == Some(view_of(v)),
                None => sole(all.take(i as int), name@) is None,
            },
            r matches Some(None) ==> forall|k: int| 0 <= k < i ==> (#[trigger] ms@[k]).0@ != name@,
            r matches Some(Some(v)) ==> exists|k: int|
                0 <= k < i && (#[trigger] ms@[k]).0@ == name@ && ms@[k].1@ == v@ && forall|j: int|
                    0 <= j < i && j != k ==> (#[trigger] ms@[j]).0@ != name@,
            r is None ==> exists|k: int, j: int|
                0 <= k < j < i && (#[trigger] ms@[k]).0@ == name@ && (#[trigger] ms@[j]).0@ == name@,
        decreases ms@.len() - i,
    {
        proof {
            assert(all.take(i + 1).drop_last() =~= all.take(i as int));
            assert(all[i as int] == (ms@[i as int].0@, ms@[i as int].1@));
        }
        if same(ms[i].0.as_str(), name) {
            r = match r {
                Some(None) => Some(Some(copied(ms[i].1.as_str()))),
                _ => None,
            };
        }
        i += 1;
    }
    assert(all.take(i as int) =~= all);
    r
}

// --- laws --------------------------------------------------------------------

/// The last thing in `s` is the mark `c`, but for white space.
pub open spec fn ends_in(s: Seq<char>, c: char) -> bool {
    exists|i: int|
        0 <= i < s.len() && #[trigger] s[i] == c && forall|k: int|
            i < k < s.len() ==> (#[trigger] s[k]) == ' ' || s[k] == '\n' || s[k] == '\t' || s[k]
                == '\r'
}

proof fn lemma_space_ends(s: Seq<char>) -> (n: int)
    ensures
        0 <= n <= s.len(),
        after_space(s) == s.skip(n),
        forall|k: int|
            0 <= k < n ==> (#[trigger] s[k]) == ' ' || s[k] == '\n' || s[k] == '\t' || s[k] == '\r',
    decreases s.len(),
{
    if s.len() > 0 && is_space(s[0]) {
        let n = lemma_space_ends(s.skip(1));
        assert(s.skip(1).skip(n) =~= s.skip(n + 1));
        assert forall|k: int| 0 <= k < n + 1 implies (#[trigger] s[k]) == ' ' || s[k] == '\n' || s[k]
            == '\t' || s[k] == '\r' by {
            if k > 0 {
                assert(s.skip(1)[k - 1] == s[k]);
            }
        }
        n + 1
    } else {
        assert(s.skip(0) =~= s);
        0
    }
}

proof fn lemma_mark_is_there(s: Seq<char>, c: char) -> (n: int)
    ensures
        after_mark(s, c) matches Some(t) ==> 0 < n <= s.len() && t == s.skip(n) && s[n - 1] == c
            && forall|k: int|
            0 <= k < n - 1 ==> (#[trigger] s[k]) == ' ' || s[k] == '\n' || s[k] == '\t' || s[k]
                == '\r',
{
    let n = lemma_space_ends(s);
    if after_mark(s, c) is Some {
        assert(s.skip(n)[0] == s[n]);
        assert(s.skip(n).skip(1) =~= s.skip(n + 1));
    }
    n + 1
}

proof fn lemma_ends_in_tail(s: Seq<char>, n: int, c: char)
    requires
        0 <= n <= s.len(),
        ends_in(s.skip(n), c),
    ensures
        ends_in(s, c),
{
    let t = s.skip(n);
    let i = choose|i: int|
        0 <= i < t.len() && #[trigger] t[i] == c && forall|k: int|
            i < k < t.len() ==> (#[trigger] t[k]) == ' ' || t[k] == '\n' || t[k] == '\t' || t[k]
                == '\r';
    assert(s[n + i] == c);
    assert forall|k: int| n + i < k < s.len() implies (#[trigger] s[k]) == ' ' || s[k] == '\n' || s[k]
        == '\t' || s[k] == '\r' by {
        assert(t[k - n] == s[k]);
    }
}

proof fn lemma_mark_closes(s: Seq<char>, c: char)
    requires
        after_mark(s, c) matches Some(end) && after_space(end).len() == 0,
    ensures
        ends_in(s, c),
{
    let n = lemma_mark_is_there(s, c);
    let end = s.skip(n);
    let m = lemma_space_ends(end);
    assert(s[n - 1] == c);
    assert forall|k: int| n - 1 < k < s.len() implies (#[trigger] s[k]) == ' ' || s[k] == '\n' || s[k]
        == '\t' || s[k] == '\r' by {
        assert(end[k - n] == s[k]);
    }
}

proof fn lemma_value_ends(s: Seq<char>) -> (n: int)
    ensures
        0 <= n <= s.len(),
        after_value(s) == s.skip(n),
{
    match front_value(s) {
        Some(v) if v.len() <= s.len() => v.len() as int,
        _ => {
            assert(s.skip(s.len() as int) =~= Seq::<char>::empty());
            s.len() as int
        },
    }
}

proof fn lemma_members_end(s: Seq<char>)
    requires
        members_in(s) is Some,
    ensures
        ends_in(s, '}'),
    decreases s.len(),
{
    let a = lemma_value_ends(s);
    let b = lemma_mark_is_there(after_value(s), ':');
    let t = after_mark(after_value(s), ':')->0;
    assert(t =~= s.skip(a + b));
    let c = lemma_value_ends(t);
    let u = after_value(t);
    assert(u =~= s.skip(a + b + c));
    match after_mark(u, '}') {
        Some(_) => {
            lemma_mark_closes(u, '}');
        },
        None => {
            let d = lemma_mark_is_there(u, ',');
            let more = after_mark(u, ',')->0;
            assert(more =~= u.skip(d));
            lemma_members_end(more);
            lemma_ends_in_tail(u, d, '}');
        },
    }
    lemma_ends_in_tail(s, a + b + c, '}');
}

proof fn lemma_elements_end(s: Seq<char>)
    requires
        elements_in(s) is Some,
    ensures
        ends_in(s, ']'),
    decreases s.len(),
{
    let a = lemma_value_ends(s);
    let u = after_value(s);
    match after_mark(u, ']') {
        Some(_) => {
            lemma_mark_closes(u, ']');
        },
        None => {
            let d = lemma_mark_is_there(u, ',');
            let more = after_mark(u, ',')->0;
            lemma_elements_end(more);
            lemma_ends_in_tail(u, d, ']');
        },
    }
    lemma_ends_in_tail(s, a, ']');
}

/// An object begins and ends with its braces and an array with its brackets, and
/// nothing but white space stands before or after: no text is taken for one
/// that goes on behind it. No text is both.
pub proof fn law_nothing_stands_around(s: Seq<char>)
    ensures
        object_members(s) is Some ==> ends_in(s, '}') && exists|i: int|
            0 <= i < s.len() && #[trigger] s[i] == '{' && forall|k: int|
                0 <= k < i ==> (#[trigger] s[k]) == ' ' || s[k] == '\n' || s[k] == '\t' || s[k] == '\r',
        array_elements(s) is Some ==> ends_in(s, ']') && exists|i: int|
            0 <= i < s.len() && #[trigger] s[i] == '[' && forall|k: int|
                0 <= k < i ==> (#[trigger] s[k]) == ' ' || s[k] == '\n' || s[k] == '\t' || s[k] == '\r',
        object_members(s) is None || array_elements(s) is None,
{
    let a = lemma_mark_is_there(s, '{');
    if object_members(s) is Some {
        let t = s.skip(a);
        if after_mark(t, '}') is Some {
            lemma_mark_closes(t, '}');
        } else {
            lemma_members_end(t);
        }
        lemma_ends_in_tail(s, a, '}');
        assert(s[a - 1] == '{');
    }
    let b = lemma_mark_is_there(s, '[');
    if array_elements(s) is Some {
        let t = s.skip(b);
        if after_mark(t, ']') is Some {
            lemma_mark_closes(t, ']');
        } else {
            lemma_elements_end(t);
        }
        lemma_ends_in_tail(s, b, ']');
        assert(s[b - 1] == '[');
    }
}

} // verus!
