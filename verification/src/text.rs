//! Text primitives: the small vocabulary of string operations that the rest
//! of the library is written in, each with an exact meaning over `Seq<char>`.

use vstd::prelude::*;
use vstd::utf8::*;

verus! {

/// `String::push` appends one character.
pub assume_specification[ String::push ](s: &mut String, c: char)
    ensures
        final(s)@ == old(s)@.push(c),
;

/// What `String::from_utf8_lossy` makes of a byte string: malformed stretches
/// become U+FFFD, well-formed ones are kept.
pub uninterp spec fn lossy_utf8(bytes: Seq<u8>) -> Seq<char>;

/// Calls `String::from_utf8_lossy`. The result is a function of the bytes
/// alone, and well-formed UTF-8 is decoded unchanged.
#[verifier::external_body]
pub(crate) fn from_utf8_lossy(bytes: &[u8]) -> (r: String)
    ensures
        r@ == lossy_utf8(bytes@),
        valid_utf8(bytes@) ==> r@ == decode_utf8(bytes@),
{
    String::from_utf8_lossy(bytes).into_owned()
}

/// The `{:?}` rendering of a string: double quotes around it, special
/// characters escaped.
pub uninterp spec fn debug_text(s: Seq<char>) -> Seq<char>;

/// Formats a string with `{:?}`. The result is a function of the characters.
#[verifier::external_body]
pub(crate) fn quoted(s: &str) -> (r: String)
    ensures
        r@ == debug_text(s@),
{
    format!("{:?}", s)
}

/// The `{:?}` rendering of a character: single quotes around it, special
/// characters escaped.
pub uninterp spec fn debug_char(c: char) -> Seq<char>;

/// Formats a character with `{:?}`. The result is a function of the character.
#[verifier::external_body]
pub(crate) fn quoted_char(c: char) -> (r: String)
    ensures
        r@ == debug_char(c),
{
    format!("{:?}", c)
}

/// The characters of each string, in order.
pub open spec fn views(v: Seq<String>) -> Seq<Seq<char>> {
    v.map_values(|s: String| s@)
}

/// The characters of each word, in order.
pub open spec fn word_views(v: Seq<&'static str>) -> Seq<Seq<char>> {
    v.map_values(|s: &'static str| s@)
}

/// The characters of an optional string.
pub open spec fn opt_view(o: Option<String>) -> Option<Seq<char>> {
    match o {
        Some(s) => Some(s@),
        None => None,
    }
}

/// The characters of each key and value, in order.
pub open spec fn pair_views(v: Seq<(String, String)>) -> Seq<(Seq<char>, Seq<char>)> {
    v.map_values(|p: (String, String)| (p.0@, p.1@))
}

/// What a list says is what its items say, one by one.
pub proof fn law_views_are_item_by_item(
    a: Seq<String>,
    b: Seq<&'static str>,
    c: Seq<(String, String)>,
    o: Option<String>,
    i: int,
)
    ensures
        views(a).len() == a.len(),
        0 <= i < a.len() ==> views(a)[i] == a[i]@,
        word_views(b).len() == b.len(),
        0 <= i < b.len() ==> word_views(b)[i] == b[i]@,
        pair_views(c).len() == c.len(),
        0 <= i < c.len() ==> pair_views(c)[i] == (c[i].0@, c[i].1@),
        o is None <==> opt_view(o) is None,
        o matches Some(s) ==> opt_view(o) == Some(s@),
{
}

/// A copy of a list of keys and values.
pub fn copied_pairs(v: &Vec<(String, String)>) -> (r: Vec<(String, String)>)
    ensures
        pair_views(r@) == pair_views(v@),
{
    let mut r: Vec<(String, String)> = Vec::new();
    let mut i: usize = 0;
    while i < v.len()
        invariant
            i <= v@.len(),
            pair_views(r@) == pair_views(v@).take(i as int),
        decreases v@.len() - i,
    {
        let ghost before = r@;
        let p: (String, String) = (v[i].0.clone(), v[i].1.clone());
        r.push(p);
        assert(pair_views(r@) =~= pair_views(before).push((p.0@, p.1@)));
        assert(pair_views(v@)[i as int] == (v@[i as int].0@, v@[i as int].1@));
        assert(pair_views(r@) =~= pair_views(v@).take(i + 1));
        i += 1;
    }
    assert(pair_views(v@).take(i as int) =~= pair_views(v@));
    r
}

/// The characters of a string, as a vector.
pub fn chars_of(s: &str) -> (r: Vec<char>)
    ensures
        r@ == s@,
{
    let mut v: Vec<char> = Vec::new();
    for c in it: s.chars()
        invariant
            v@ == it.seq().take(it.index()),
            it.seq() == s@,
    {
        v.push(c);
    }
    v
}

/// The string made of the characters `v[from..to]`.
pub fn text_of(v: &Vec<char>, from: usize, to: usize) -> (r: String)
    requires
        from <= to <= v@.len(),
    ensures
        r@ == v@.subrange(from as int, to as int),
{
    let mut s: String = String::new();
    let mut i: usize = from;
    while i < to
        invariant
            from <= i <= to <= v@.len(),
            s@ == v@.subrange(from as int, i as int),
        decreases to - i,
    {
        s.push(v[i]);
        i += 1;
        assert(s@ =~= v@.subrange(from as int, i as int));
    }
    s
}

/// Whether two strings hold the same characters.
pub fn same(a: &str, b: &str) -> (r: bool)
    ensures
        r == (a@ == b@),
{
    let x: Vec<char> = chars_of(a);
    let y: Vec<char> = chars_of(b);
    if x.len() != y.len() {
        return false;
    }
    let mut i: usize = 0;
    while i < x.len()
        invariant
            i <= x@.len(),
            x@.len() == y@.len(),
            x@ == a@,
            y@ == b@,
            x@.take(i as int) == y@.take(i as int),
        decreases x@.len() - i,
    {
        if x[i] != y[i] {
            assert(a@[i as int] != b@[i as int]);
            return false;
        }
        i += 1;
        assert(x@.take(i as int) =~= x@.take(i - 1).push(x@[i - 1]));
        assert(y@.take(i as int) =~= y@.take(i - 1).push(y@[i - 1]));
    }
    assert(x@.take(i as int) =~= x@);
    assert(y@.take(i as int) =~= y@);
    true
}

/// Whether `w` is one of the strings `list`.
pub fn is_among(w: &str, list: &Vec<String>) -> (r: bool)
    ensures
        r == views(list@).contains(w@),
{
    let ghost all = views(list@);
    let mut i: usize = 0;
    while i < list.len()
        invariant
            i <= list@.len(),
            all == views(list@),
            forall|k: int| 0 <= k < i ==> all[k] != w@,
        decreases list@.len() - i,
    {
        assert(all[i as int] == list@[i as int]@);
        if same(list[i].as_str(), w) {
            assert(all.contains(w@));
            return true;
        }
        i += 1;
    }
    assert(!all.contains(w@));
    false
}

/// A copy of a string.
pub fn copied(s: &str) -> (r: String)
    ensures
        r@ == s@,
{
    s.to_owned()
}

// --- prefixes ----------------------------------------------------------------

/// `p` is how `s` begins.
pub open spec fn begins(s: Seq<char>, p: Seq<char>) -> bool {
    p.len() <= s.len() && s.take(p.len() as int) == p
}

/// Whether `s` begins with `p`.
pub fn starts_with(s: &str, p: &str) -> (r: bool)
    ensures
        r == begins(s@, p@),
        r <==> p@.len() <= s@.len() && forall|k: int| 0 <= k < p@.len() ==> s@[k] == #[trigger] p@[k],
{
    let x: Vec<char> = chars_of(s);
    let y: Vec<char> = chars_of(p);
    proof {
        lemma_begins(s@, p@);
    }
    chars_begin(&x, &y)
}

proof fn lemma_begins(s: Seq<char>, p: Seq<char>)
    ensures
        begins(s, p) <==> p.len() <= s.len() && forall|k: int|
            0 <= k < p.len() ==> s[k] == #[trigger] p[k],
{
    if begins(s, p) {
        assert forall|k: int| 0 <= k < p.len() implies s[k] == #[trigger] p[k] by {
            assert(s.take(p.len() as int)[k] == s[k]);
        }
    }
    if p.len() <= s.len() && forall|k: int| 0 <= k < p.len() ==> s[k] == #[trigger] p[k] {
        assert(s.take(p.len() as int) =~= p);
    }
}

pub(crate) fn chars_begin(x: &Vec<char>, y: &Vec<char>) -> (r: bool)
    ensures
        r == begins(x@, y@),
{
    if y.len() > x.len() {
        return false;
    }
    let mut i: usize = 0;
    while i < y.len()
        invariant
            i <= y@.len() <= x@.len(),
            x@.take(i as int) == y@.take(i as int),
        decreases y@.len() - i,
    {
        if x[i] != y[i] {
            assert(x@.take(y@.len() as int)[i as int] != y@[i as int]);
            return false;
        }
        i += 1;
        assert(x@.take(i as int) =~= x@.take(i - 1).push(x@[i - 1]));
        assert(y@.take(i as int) =~= y@.take(i - 1).push(y@[i - 1]));
    }
    assert(y@.take(i as int) =~= y@);
    true
}

/// What follows `p` in `s`, where `s` begins with `p`.
pub fn strip_prefix<'a>(s: &'a str, p: &str) -> (r: Option<&'a str>)
    ensures
        r is Some <==> begins(s@, p@),
        r matches Some(rest) ==> rest@ == s@.skip(p@.len() as int),
        r matches Some(rest) ==> s@ == p@ + rest@,
        r is Some <==> p@.len() <= s@.len() && forall|k: int|
            0 <= k < p@.len() ==> s@[k] == #[trigger] p@[k],
{
    proof {
        lemma_begins(s@, p@);
    }
    let x: Vec<char> = chars_of(s);
    let y: Vec<char> = chars_of(p);
    if chars_begin(&x, &y) {
        let rest: &'a str = s.substring_char(y.len(), x.len());
        assert(rest@ =~= s@.skip(p@.len() as int));
        assert(s@ =~= p@ + rest@);
        Some(rest)
    } else {
        None
    }
}

/// `p` occurs somewhere in `s`.
pub open spec fn contains_text(s: Seq<char>, p: Seq<char>) -> bool {
    exists|i: int| 0 <= i <= s.len() && #[trigger] begins(s.skip(i), p)
}

proof fn lemma_contains(s: Seq<char>, p: Seq<char>)
    ensures
        contains_text(s, p) <==> exists|i: int|
            0 <= i <= s.len() - p.len() && #[trigger] s.skip(i).take(p.len() as int) == p,
{
    if contains_text(s, p) {
        let i = choose|i: int| 0 <= i <= s.len() && #[trigger] begins(s.skip(i), p);
        assert(s.skip(i).take(p.len() as int) == p);
    }
    assert forall|i: int|
        0 <= i <= s.len() - p.len() && #[trigger] s.skip(i).take(p.len() as int) == p implies contains_text(
        s,
        p,
    ) by {
        assert(begins(s.skip(i), p));
    }
}

/// Whether `p` occurs in `s`.
pub fn contains(s: &str, p: &str) -> (r: bool)
    ensures
        r == contains_text(s@, p@),
        r <==> exists|i: int|
            0 <= i <= s@.len() - p@.len() && #[trigger] s@.skip(i).take(p@.len() as int) == p@,
{
    proof {
        lemma_contains(s@, p@);
    }
    let x: Vec<char> = chars_of(s);
    let y: Vec<char> = chars_of(p);
    let n: usize = x.len();
    let m: usize = y.len();
    if m > n {
        assert forall|k: int| 0 <= k <= s@.len() implies !#[trigger] begins(s@.skip(k), p@) by {}
        return false;
    }
    let last: usize = n - m;
    let mut i: usize = 0;
    loop
        invariant
            i <= last,
            n == x@.len(),
            m == y@.len(),
            last == n - m,
            x@ == s@,
            y@ == p@,
            forall|k: int| 0 <= k < i ==> !#[trigger] begins(s@.skip(k), p@),
            contains_text(s@, p@) <==> exists|i: int|
                0 <= i <= s@.len() - p@.len() && #[trigger] s@.skip(i).take(p@.len() as int) == p@,
        decreases last - i,
    {
        let mut j: usize = 0;
        while j < m && x[i + j] == y[j]
            invariant
                i + m <= n,
                j <= m,
                n == x@.len(),
                m == y@.len(),
                forall|k: int| 0 <= k < j ==> x@[i + k] == #[trigger] y@[k],
            decreases m - j,
        {
            j += 1;
        }
        if j == m {
            assert(s@.skip(i as int).take(m as int) =~= y@);
            assert(begins(s@.skip(i as int), p@));
            return true;
        }
        assert(s@.skip(i as int).take(m as int)[j as int] == x@[i + j]);
        assert(!begins(s@.skip(i as int), p@));
        if i == last {
            return false;
        }
        i += 1;
    }
}

// --- splitting ---------------------------------------------------------------

/// The index of the first `c` in `s`, or the length of `s` if there is none.
pub open spec fn until(s: Seq<char>, c: char) -> int
    decreases s.len(),
{
    if s.len() == 0 || s[0] == c {
        0
    } else {
        1 + until(s.skip(1), c)
    }
}

pub proof fn lemma_until(s: Seq<char>, c: char)
    ensures
        0 <= until(s, c) <= s.len(),
        forall|k: int| 0 <= k < until(s, c) ==> s[k] != c,
        until(s, c) < s.len() ==> s[until(s, c)] == c,
    decreases s.len(),
{
    if s.len() > 0 && s[0] != c {
        lemma_until(s.skip(1), c);
        assert forall|k: int| 0 <= k < until(s, c) implies s[k] != c by {
            if k > 0 {
                assert(s.skip(1)[k - 1] == s[k]);
            }
        }
    }
}

pub proof fn lemma_until_is(s: Seq<char>, c: char, n: int)
    requires
        0 <= n <= s.len(),
        forall|k: int| 0 <= k < n ==> s[k] != c,
        n < s.len() ==> s[n] == c,
    ensures
        until(s, c) == n,
{
    lemma_until(s, c);
}

/// The index of the first `c` in `v` at or after `from`, or `v.len()`.
pub(crate) fn index_of(v: &Vec<char>, c: char, from: usize) -> (r: usize)
    requires
        from <= v@.len(),
    ensures
        from <= r <= v@.len(),
        r - from == until(v@.skip(from as int), c),
{
    let mut i: usize = from;
    while i < v.len() && v[i] != c
        invariant
            from <= i <= v@.len(),
            forall|k: int| from <= k < i ==> v@[k] != c,
        decreases v@.len() - i,
    {
        i += 1;
    }
    proof {
        lemma_until_is(v@.skip(from as int), c, i - from);
    }
    i
}

/// The two halves of `s` around the first `c`; `None` without a `c`.
pub fn split_once<'a>(s: &'a str, c: char) -> (r: Option<(&'a str, &'a str)>)
    ensures
        r is Some <==> until(s@, c) < s@.len(),
        r matches Some((a, b)) ==> a@ == s@.take(until(s@, c)) && b@ == s@.skip(
            until(s@, c) + 1,
        ),
        r matches Some((a, b)) ==> s@ == a@ + seq![c] + b@ && !a@.contains(c),
        r is None ==> !s@.contains(c),
{
    let v: Vec<char> = chars_of(s);
    let i: usize = index_of(&v, c, 0);
    assert(v@.skip(0) =~= s@);
    proof {
        lemma_until(s@, c);
    }
    if i < v.len() {
        let a: &'a str = s.substring_char(0, i);
        let b: &'a str = s.substring_char(i + 1, v.len());
        assert(a@ =~= s@.take(i as int));
        assert(b@ =~= s@.skip(i + 1));
        assert(s@ =~= a@ + seq![c] + b@);
        Some((a, b))
    } else {
        None
    }
}

/// A line without the carriage return of its line ending.
pub open spec fn line_body(l: Seq<char>) -> Seq<char> {
    if l.len() > 0 && l.last() == '\r' {
        l.drop_last()
    } else {
        l
    }
}

/// The lines of `s`: the pieces that end in a newline, without their line
/// endings (`\n` or `\r\n`), then what follows the last newline, if anything.
pub open spec fn lines_of(s: Seq<char>) -> Seq<Seq<char>>
    decreases s.len(),
{
    let n = until(s, '\n');
    if s.len() == 0 {
        Seq::empty()
    } else if 0 <= n < s.len() {
        seq![line_body(s.take(n))] + lines_of(s.skip(n + 1))
    } else {
        seq![s]
    }
}

/// The lines of `s`.
pub fn lines(s: &str) -> (r: Vec<String>)
    ensures
        views(r@) == lines_of(s@),
{
    let v: Vec<char> = chars_of(s);
    let mut out: Vec<String> = Vec::new();
    let mut i: usize = 0;
    assert(v@.skip(0) =~= v@);
    assert(views(out@) =~= Seq::<Seq<char>>::empty());
    while i < v.len()
        invariant
            i <= v@.len(),
            v@ == s@,
            lines_of(s@) =~= views(out@) + lines_of(v@.skip(i as int)),
        decreases v@.len() - i,
    {
        let ghost rest = v@.skip(i as int);
        let ghost before = out@;
        let n: usize = index_of(&v, '\n', i);
        if n < v.len() {
            let end: usize = if n > i && v[n - 1] == '\r' {
                n - 1
            } else {
                n
            };
            let l: String = text_of(&v, i, end);
            proof {
                assert(rest.take(n - i) =~= v@.subrange(i as int, n as int));
                assert(l@ =~= line_body(rest.take(n - i)));
                assert(rest.skip(n - i + 1) =~= v@.skip(n + 1));
            }
            out.push(l);
            i = n + 1;
            assert(views(out@) =~= views(before).push(l@));
        } else {
            let l: String = text_of(&v, i, n);
            assert(l@ =~= rest);
            out.push(l);
            i = n;
            assert(views(out@) =~= views(before).push(l@));
            assert(v@.skip(i as int) =~= Seq::<char>::empty());
        }
    }
    assert(v@.skip(i as int) =~= Seq::<char>::empty());
    out
}

/// A newline ends a line, and a carriage return before it is no part of it; the
/// text after the last newline is a line unless there is none, and what it ends
/// in is part of it.
pub proof fn law_lines_end_at_newlines(w: Seq<char>, rest: Seq<char>)
    requires
        !w.contains('\n'),
    ensures
        w.len() == 0 || w.last() != '\r' ==> lines_of(w + seq!['\n'] + rest) == seq![w] + lines_of(
            rest,
        ),
        lines_of(w + seq!['\r', '\n'] + rest) == seq![w] + lines_of(rest),
        w.len() > 0 ==> lines_of(w) == seq![w],
        lines_of(Seq::empty()) == Seq::<Seq<char>>::empty(),
{
    assert forall|k: int| 0 <= k < w.len() implies w[k] != '\n' by {
        assert(w.contains(w[k]));
    }
    let n = w.len() as int;
    let a = w + seq!['\n'] + rest;
    lemma_until_is(a, '\n', n);
    assert(a.take(n) =~= w);
    assert(a.skip(n + 1) =~= rest);
    let b = w + seq!['\r', '\n'] + rest;
    lemma_until_is(b, '\n', n + 1);
    assert(b.take(n + 1) =~= w.push('\r'));
    assert(w.push('\r').drop_last() =~= w);
    assert(b.skip(n + 2) =~= rest);
    lemma_until_is(w, '\n', n);
}

/// The pieces of `s` between the occurrences of `sep`.
pub open spec fn fields_of(s: Seq<char>, sep: char) -> Seq<Seq<char>>
    decreases s.len(),
{
    let n = until(s, sep);
    if 0 <= n < s.len() {
        seq![s.take(n)] + fields_of(s.skip(n + 1), sep)
    } else {
        seq![s]
    }
}

/// The pieces of `s` between the occurrences of `sep`.
pub fn fields(s: &str, sep: char) -> (r: Vec<String>)
    ensures
        views(r@) == fields_of(s@, sep),
        r@.len() >= 1,
{
    let v: Vec<char> = chars_of(s);
    let mut out: Vec<String> = Vec::new();
    let mut i: usize = 0;
    assert(v@.skip(0) =~= v@);
    assert(views(out@) =~= Seq::<Seq<char>>::empty());
    loop
        invariant
            i <= v@.len(),
            v@ == s@,
            fields_of(s@, sep) =~= views(out@) + fields_of(v@.skip(i as int), sep),
        decreases v@.len() - i,
    {
        let ghost rest = v@.skip(i as int);
        let ghost before = out@;
        let n: usize = index_of(&v, sep, i);
        let l: String = text_of(&v, i, n);
        out.push(l);
        assert(views(out@) =~= views(before).push(l@));
        assert(rest.take(n - i) =~= l@);
        if n < v.len() {
            assert(rest.skip(n - i + 1) =~= v@.skip(n + 1));
            i = n + 1;
        } else {
            assert(l@ =~= rest);
            return out;
        }
    }
}

/// A piece without a separator, and the separator after it, put one more piece
/// in front; a text without a separator is one piece.
pub proof fn law_fields_are_between_separators(w: Seq<char>, rest: Seq<char>, sep: char)
    requires
        !w.contains(sep),
    ensures
        fields_of(w + seq![sep] + rest, sep) == seq![w] + fields_of(rest, sep),
        fields_of(w, sep) == seq![w],
{
    let s = w + seq![sep] + rest;
    assert forall|k: int| 0 <= k < w.len() implies w[k] != sep by {
        assert(w.contains(w[k]));
    }
    lemma_until_is(s, sep, w.len() as int);
    assert(s.take(w.len() as int) =~= w);
    assert(s.skip(w.len() as int + 1) =~= rest);
    lemma_until_is(w, sep, w.len() as int);
}

/// A separator and a piece without one put one more piece at the end.
pub proof fn law_fields_grow_at_the_end(s: Seq<char>, w: Seq<char>, sep: char)
    requires
        !w.contains(sep),
    ensures
        fields_of(s + seq![sep] + w, sep) == fields_of(s, sep).push(w),
    decreases s.len(),
{
    let t = s + seq![sep] + w;
    lemma_until(s, sep);
    let n = until(s, sep);
    assert forall|k: int| 0 <= k < n implies t[k] != sep by {
        assert(t[k] == s[k]);
    }
    if n < s.len() {
        assert(t[n] == s[n]);
        lemma_until_is(t, sep, n);
        assert(t.take(n) =~= s.take(n));
        assert(t.skip(n + 1) =~= s.skip(n + 1) + seq![sep] + w);
        law_fields_grow_at_the_end(s.skip(n + 1), w, sep);
        assert(fields_of(t, sep) =~= fields_of(s, sep).push(w));
    } else {
        lemma_until_is(t, sep, n);
        assert(t.take(n) =~= s);
        assert(t.skip(n + 1) =~= w);
        law_fields_are_between_separators(w, w, sep);
        assert(fields_of(t, sep) =~= fields_of(s, sep).push(w));
    }
}

// --- white space -------------------------------------------------------------

/// The characters with the Unicode property White_Space.
pub open spec fn is_space(c: char) -> bool {
    ||| 0x09 <= c as u32 <= 0x0d
    ||| c as u32 == 0x20
    ||| c as u32 == 0x85
    ||| c as u32 == 0xa0
    ||| c as u32 == 0x1680
    ||| 0x2000 <= c as u32 <= 0x200a
    ||| c as u32 == 0x2028
    ||| c as u32 == 0x2029
    ||| c as u32 == 0x202f
    ||| c as u32 == 0x205f
    ||| c as u32 == 0x3000
}

/// Whether `c` is white space.
pub fn is_white_space(c: char) -> (r: bool)
    ensures
        r == is_space(c),
        r <==> 0x09 <= c as u32 <= 0x0d || c as u32 == 0x20 || c as u32 == 0x85 || c as u32 == 0xa0 || c as u32
            == 0x1680 || 0x2000 <= c as u32 <= 0x200a || c as u32 == 0x2028 || c as u32 == 0x2029
            || c as u32 == 0x202f || c as u32 == 0x205f || c as u32 == 0x3000,
{
    let u: u32 = c as u32;
    (0x09 <= u && u <= 0x0d) || u == 0x20 || u == 0x85 || u == 0xa0 || u == 0x1680 || (0x2000 <= u
        && u <= 0x200a) || u == 0x2028 || u == 0x2029 || u == 0x202f || u == 0x205f || u == 0x3000
}

/// `s` from its first character that is not white space.
pub open spec fn trim_start_of(s: Seq<char>) -> Seq<char>
    decreases s.len(),
{
    if s.len() > 0 && is_space(s[0]) {
        trim_start_of(s.skip(1))
    } else {
        s
    }
}

/// `s` up to its last character that is not white space.
pub open spec fn trim_end_of(s: Seq<char>) -> Seq<char>
    decreases s.len(),
{
    if s.len() > 0 && is_space(s.last()) {
        trim_end_of(s.drop_last())
    } else {
        s
    }
}

/// `s` without the white space at either end.
pub open spec fn trimmed(s: Seq<char>) -> Seq<char> {
    trim_end_of(trim_start_of(s))
}

/// `s` without the white space at either end.
pub fn trim<'a>(s: &'a str) -> (r: &'a str)
    ensures
        r@ == trimmed(s@),
        r@.len() > 0 ==> !is_space(r@[0]) && !is_space(r@.last()),
        exists|i: int, j: int|
            0 <= i <= j <= s@.len() && r@ == #[trigger] s@.subrange(i, j) && (forall|k: int|
                0 <= k < i || j <= k < s@.len() ==> is_space(#[trigger] s@[k])),
{
    let v: Vec<char> = chars_of(s);
    let mut i: usize = 0;
    assert(v@.skip(0) =~= v@);
    while i < v.len() && is_white_space(v[i])
        invariant
            i <= v@.len(),
            v@ == s@,
            trim_start_of(s@) == trim_start_of(v@.skip(i as int)),
            forall|k: int| 0 <= k < i ==> is_space(#[trigger] s@[k]),
        decreases v@.len() - i,
    {
        assert(v@.skip(i as int).skip(1) =~= v@.skip(i + 1));
        i += 1;
    }
    assert(trim_start_of(s@) == v@.skip(i as int));
    let mut j: usize = v.len();
    assert(v@.skip(i as int) =~= v@.subrange(i as int, j as int));
    while j > i && is_white_space(v[j - 1])
        invariant
            i <= j <= v@.len(),
            v@ == s@,
            trimmed(s@) == trim_end_of(v@.subrange(i as int, j as int)),
            i < v@.len() ==> !is_space(v@[i as int]),
            forall|k: int| 0 <= k < i || j <= k < s@.len() ==> is_space(#[trigger] s@[k]),
        decreases j,
    {
        assert(v@.subrange(i as int, j as int).drop_last() =~= v@.subrange(i as int, j - 1));
        j -= 1;
    }
    assert(v@.subrange(i as int, j as int) == s@.subrange(i as int, j as int));
    s.substring_char(i, j)
}

/// The length of the run of characters before the first white space.
pub open spec fn word_len(s: Seq<char>) -> int
    decreases s.len(),
{
    if s.len() == 0 || is_space(s[0]) {
        0
    } else {
        1 + word_len(s.skip(1))
    }
}

pub proof fn lemma_word_len(s: Seq<char>)
    ensures
        0 <= word_len(s) <= s.len(),
        forall|k: int| 0 <= k < word_len(s) ==> !is_space(s[k]),
        word_len(s) < s.len() ==> is_space(s[word_len(s)]),
    decreases s.len(),
{
    if s.len() > 0 && !is_space(s[0]) {
        lemma_word_len(s.skip(1));
        assert forall|k: int| 0 <= k < word_len(s) implies !is_space(s[k]) by {
            if k > 0 {
                assert(s.skip(1)[k - 1] == s[k]);
            }
        }
    }
}

/// The runs of characters of `s` that are not white space.
pub open spec fn words_of(s: Seq<char>) -> Seq<Seq<char>>
    decreases s.len(),
{
    let n = word_len(s);
    if s.len() == 0 {
        Seq::empty()
    } else if is_space(s[0]) {
        words_of(s.skip(1))
    } else if 0 < n <= s.len() {
        seq![s.take(n)] + words_of(s.skip(n))
    } else {
        Seq::empty()
    }
}

/// The words of `s`: its runs of characters that are not white space.
pub fn words(s: &str) -> (r: Vec<String>)
    ensures
        views(r@) == words_of(s@),
{
    let v: Vec<char> = chars_of(s);
    let mut out: Vec<String> = Vec::new();
    let mut i: usize = 0;
    assert(v@.skip(0) =~= v@);
    assert(views(out@) =~= Seq::<Seq<char>>::empty());
    while i < v.len()
        invariant
            i <= v@.len(),
            v@ == s@,
            words_of(s@) =~= views(out@) + words_of(v@.skip(i as int)),
        decreases v@.len() - i,
    {
        let ghost rest = v@.skip(i as int);
        let ghost before = out@;
        if is_white_space(v[i]) {
            assert(rest.skip(1) =~= v@.skip(i + 1));
            i += 1;
        } else {
            let mut n: usize = i;
            while n < v.len() && !is_white_space(v[n])
                invariant
                    i <= n <= v@.len(),
                    forall|k: int| i <= k < n ==> !is_space(v@[k]),
                decreases v@.len() - n,
            {
                n += 1;
            }
            proof {
                lemma_word_len(rest);
                if word_len(rest) < n - i {
                    assert(is_space(rest[word_len(rest)]));
                    assert(rest[word_len(rest)] == v@[i + word_len(rest)]);
                }
                if word_len(rest) > n - i {
                    assert(rest[n - i] == v@[n as int]);
                }
            }
            let l: String = text_of(&v, i, n);
            out.push(l);
            assert(views(out@) =~= views(before).push(l@));
            assert(rest.take(n - i) =~= l@);
            assert(rest.skip(n - i) =~= v@.skip(n as int));
            i = n;
        }
    }
    assert(v@.skip(i as int) =~= Seq::<char>::empty());
    out
}

/// A word at the start of a text, followed by white space or nothing, is the
/// first of its words.
pub proof fn lemma_first_word(w: Seq<char>, rest: Seq<char>)
    requires
        w.len() > 0,
        forall|k: int| 0 <= k < w.len() ==> !is_space(#[trigger] w[k]),
        rest.len() > 0 ==> is_space(rest[0]),
    ensures
        words_of(w + rest) == seq![w] + words_of(rest),
{
    let s = w + rest;
    lemma_word_len(s);
    let n = word_len(s);
    if n < w.len() {
        assert(is_space(s[n]));
        assert(s[n] == w[n]);
    }
    if n > w.len() {
        assert(!is_space(s[w.len() as int]));
        assert(s[w.len() as int] == rest[0]);
    }
    assert(s[0] == w[0]);
    assert(s.take(n) =~= w);
    assert(s.skip(n) =~= rest);
}

/// White space before a word is no part of the words, and between two words
/// there is some: the words of a text are what is left between its white space.
pub proof fn law_words_are_between_spaces(w: Seq<char>, c: char, rest: Seq<char>)
    requires
        w.len() > 0,
        forall|k: int| 0 <= k < w.len() ==> !is_space(#[trigger] w[k]),
        is_space(c),
    ensures
        words_of(seq![c] + rest) == words_of(rest),
        words_of(w + seq![c] + rest) == seq![w] + words_of(rest),
        words_of(w) == seq![w],
        words_of(Seq::empty()) == Seq::<Seq<char>>::empty(),
{
    let e = Seq::<char>::empty();
    assert((seq![c] + rest).skip(1) =~= rest);
    assert(w + seq![c] + rest =~= w + (seq![c] + rest));
    lemma_first_word(w, seq![c] + rest);
    lemma_first_word(w, e);
    assert(w + e =~= w);
    assert(seq![w] + Seq::<Seq<char>>::empty() =~= seq![w]);
}

/// What follows the last `c` of `s`, if there is one.
pub open spec fn after_last(s: Seq<char>, c: char) -> Option<Seq<char>>
    decreases s.len(),
{
    if s.len() == 0 {
        None
    } else if s.last() == c {
        Some(Seq::empty())
    } else {
        match after_last(s.drop_last(), c) {
            Some(t) => Some(t.push(s.last())),
            None => None,
        }
    }
}

/// What follows the last `c` of `s`, if there is one.
pub fn split_last<'a>(s: &'a str, c: char) -> (r: Option<&'a str>)
    ensures
        match after_last(s@, c) {
            Some(t) => r matches Some(x) && x@ == t,
            None => r is None,
        },
{
    let v: Vec<char> = chars_of(s);
    let mut i: usize = v.len();
    assert(v@.take(i as int) =~= v@);
    assert(v@.skip(i as int) =~= Seq::<char>::empty());
    assert(match after_last(v@, c) {
        Some(t) => t + v@.skip(i as int) =~= t,
        None => true,
    });
    while i > 0
        invariant
            i <= v@.len(),
            v@ == s@,
            match after_last(v@.take(i as int), c) {
                Some(t) => after_last(s@, c) == Some(t + v@.skip(i as int)),
                None => after_last(s@, c) is None,
            },
        decreases i,
    {
        let ghost head = v@.take(i as int);
        let ghost tail = v@.skip(i as int);
        assert(head.drop_last() =~= v@.take(i - 1));
        assert(head.last() == v@[i - 1]);
        if v[i - 1] == c {
            assert(Seq::<char>::empty() + tail =~= tail);
            assert(tail =~= s@.subrange(i as int, s@.len() as int));
            return Some(s.substring_char(i, v.len()));
        }
        proof {
            if let Some(t) = after_last(v@.take(i - 1), c) {
                assert(t.push(v@[i - 1]) + tail =~= t + v@.skip(i - 1));
            }
        }
        i -= 1;
    }
    None
}

/// What follows the last occurrence is all of the text behind it; a text
/// without one has none.
pub proof fn law_after_the_last(before: Seq<char>, rest: Seq<char>, c: char)
    requires
        !rest.contains(c) || before.len() == 0,
    ensures
        !rest.contains(c) ==> after_last(before + seq![c] + rest, c) == Some(rest) && after_last(
            rest,
            c,
        ) is None,
    decreases rest.len(),
{
    if !rest.contains(c) {
        let s = before + seq![c] + rest;
        if rest.len() == 0 {
            assert(s.last() == c);
            assert(rest =~= Seq::<char>::empty());
        } else {
            let less = rest.drop_last();
            assert(!less.contains(c)) by {
                if less.contains(c) {
                    let k = choose|k: int| 0 <= k < less.len() && less[k] == c;
                    assert(rest[k] == c);
                }
            }
            law_after_the_last(before, less, c);
            assert(rest[rest.len() - 1] != c) by {
                assert(rest.contains(rest[rest.len() - 1]));
            }
            assert(s.last() == rest.last());
            assert(s.drop_last() =~= before + seq![c] + less);
            assert(less.push(rest.last()) =~= rest);
        }
    }
}

// --- numbers -----------------------------------------------------------------

/// The value of a digit in bases up to 16; 16 for any other character.
pub open spec fn digit_value(c: char) -> int {
    if '0' <= c <= '9' {
        c as u32 - '0' as u32
    } else if 'a' <= c <= 'f' {
        c as u32 - 'a' as u32 + 10
    } else if 'A' <= c <= 'F' {
        c as u32 - 'A' as u32 + 10
    } else {
        16
    }
}

/// Every character of `s` is a digit in base `radix`.
pub open spec fn all_digits(s: Seq<char>, radix: int) -> bool {
    forall|k: int| 0 <= k < s.len() ==> digit_value(#[trigger] s[k]) < radix
}

/// The number that the digits `s` write in base `radix`.
pub open spec fn number_of(s: Seq<char>, radix: int) -> int
    decreases s.len(),
{
    if s.len() == 0 {
        0
    } else {
        number_of(s.drop_last(), radix) * radix + digit_value(s.last())
    }
}

/// `s` without one leading plus sign.
pub open spec fn unsigned(s: Seq<char>) -> Seq<char> {
    if s.len() > 0 && s[0] == '+' {
        s.skip(1)
    } else {
        s
    }
}

/// Reading an unsigned number in base `radix`: an optional `+`, then at least
/// one digit and nothing else, with a value of at most `max`.
pub open spec fn parsed(s: Seq<char>, radix: int, max: int) -> Option<int> {
    let d = unsigned(s);
    if d.len() > 0 && all_digits(d, radix) && number_of(d, radix) <= max {
        Some(number_of(d, radix))
    } else {
        None
    }
}

fn digit(c: char) -> (r: u64)
    ensures
        r == digit_value(c),
        r <= 16,
{
    let u: u32 = c as u32;
    if '0' <= c && c <= '9' {
        (u - 0x30) as u64
    } else if 'a' <= c && c <= 'f' {
        (u - 0x61 + 10) as u64
    } else if 'A' <= c && c <= 'F' {
        (u - 0x41 + 10) as u64
    } else {
        16
    }
}

/// The ten digits and the letters up to `f`, in either case, have the values
/// that they have in any base up to sixteen; no other character has one.
pub proof fn law_digit_values(c: char)
    ensures
        0x30 <= c as u32 <= 0x39 ==> digit_value(c) == c as u32 - 0x30,
        0x61 <= c as u32 <= 0x66 ==> digit_value(c) == c as u32 - 0x57,
        0x41 <= c as u32 <= 0x46 ==> digit_value(c) == c as u32 - 0x37,
        !(0x30 <= c as u32 <= 0x39) && !(0x61 <= c as u32 <= 0x66) && !(0x41 <= c as u32 <= 0x46)
            ==> digit_value(c) >= 16,
{
}

/// One more digit at the end of a number makes it ten times as large, and the
/// digit more; a single digit is its value. What holds anything but digits, or
/// goes beyond the largest value, is no number. One plus sign may stand first.
pub proof fn law_decimal_reading(s: Seq<char>, c: char, max: int)
    requires
        max >= 9,
    ensures
        0x30 <= c as u32 <= 0x39 ==> parsed(seq![c], 10, max) == Some(c as u32 - 0x30),
        0x30 <= c as u32 <= 0x39 ==> match parsed(s, 10, max) {
            Some(n) => if 10 * n + (c as u32 - 0x30) <= max {
                parsed(s.push(c), 10, max) == Some(10 * n + (c as u32 - 0x30))
            } else {
                parsed(s.push(c), 10, max) is None
            },
            None => s.len() > 0 && s != seq!['+'] ==> parsed(s.push(c), 10, max) is None,
        },
        !(0x30 <= c as u32 <= 0x39) && c != '+' ==> parsed(s.push(c), 10, max) is None,
        parsed(Seq::empty(), 10, max) is None,
        s.len() > 0 && s[0] != '+' ==> parsed(seq!['+'] + s, 10, max) == parsed(s, 10, max),
{
    let one = seq![c];
    assert(one.drop_last() =~= Seq::<char>::empty());
    reveal_with_fuel(number_of, 2);
    let d = unsigned(s);
    let t = s.push(c);
    assert((seq!['+'] + s).skip(1) =~= s);
    if s.len() > 0 {
        assert(unsigned(t) =~= d.push(c));
    } else {
        assert(t =~= one);
    }
    let e = unsigned(t);
    if e.len() > 0 && !(0x30 <= c as u32 <= 0x39) && c != '+' {
        assert(e[e.len() - 1] == c);
        assert(!all_digits(e, 10));
    }
    if s.len() > 0 && 0x30 <= c as u32 <= 0x39 {
        assert(e.drop_last() =~= d);
        assert(number_of(e, 10) == number_of(d, 10) * 10 + (c as u32 - 0x30));
        assert(all_digits(e, 10) <==> all_digits(d, 10)) by {
            assert forall|k: int| 0 <= k < d.len() implies d[k] == #[trigger] e[k] by {}
            if all_digits(e, 10) {
                assert forall|k: int| 0 <= k < d.len() implies digit_value(#[trigger] d[k]) < 10 by {
                    assert(digit_value(e[k]) < 10);
                }
            }
            if all_digits(d, 10) {
                assert forall|k: int| 0 <= k < e.len() implies digit_value(#[trigger] e[k]) < 10 by {
                    if k < d.len() {
                        assert(digit_value(d[k]) < 10);
                    }
                }
            }
        }
        if all_digits(d, 10) {
            lemma_number_grows(d, d.len() as int, 10);
            assert(d.take(d.len() as int) =~= d);
        }
        if d.len() == 0 {
            assert(s =~= seq!['+']);
        }
    }
}

proof fn lemma_number_grows(s: Seq<char>, k: int, radix: int)
    requires
        0 <= k <= s.len(),
        1 <= radix <= 16,
        all_digits(s, radix),
    ensures
        0 <= number_of(s.take(k), radix) <= number_of(s, radix),
    decreases s.len(),
{
    if s.len() == 0 {
        assert(s.take(k) =~= s);
    } else {
        let t = s.drop_last();
        assert(all_digits(t, radix)) by {
            assert forall|j: int| 0 <= j < t.len() implies digit_value(#[trigger] t[j]) < radix by {
                assert(t[j] == s[j]);
            }
        }
        lemma_number_grows(t, 0, radix);
        assert(number_of(t, radix) <= number_of(t, radix) * radix) by (nonlinear_arith)
            requires
                1 <= radix,
                0 <= number_of(t, radix),
        ;
        if k == s.len() {
            assert(s.take(k) =~= s);
        } else {
            lemma_number_grows(t, k, radix);
            assert(s.take(k) =~= t.take(k));
        }
    }
}

/// A number that was read is not negative, and at most `max`.
pub proof fn lemma_parsed_range(s: Seq<char>, radix: int, max: int)
    requires
        1 <= radix <= 16,
    ensures
        parsed(s, radix, max) matches Some(n) ==> 0 <= n <= max,
{
    let d = unsigned(s);
    if all_digits(d, radix) {
        lemma_number_grows(d, d.len() as int, radix);
        assert(d.take(d.len() as int) =~= d);
    }
}

/// Reads an unsigned number in base `radix`, at most `max`.
pub fn parse_number(s: &str, radix: u64, max: u64) -> (r: Option<u64>)
    requires
        2 <= radix <= 16,
    ensures
        (match r {
            Some(n) => Some(n as int),
            None => None::<int>,
        }) == parsed(s@, radix as int, max as int),
{
    let v: Vec<char> = chars_of(s);
    let start: usize = if v.len() > 0 && v[0] == '+' {
        1
    } else {
        0
    };
    let ghost d = unsigned(s@);
    assert(d =~= v@.skip(start as int));
    if start == v.len() {
        return None;
    }
    let mut value: u64 = 0;
    let mut i: usize = start;
    assert(d.take(0) =~= Seq::<char>::empty());
    while i < v.len()
        invariant
            start <= i <= v@.len(),
            2 <= radix <= 16,
            d == v@.skip(start as int),
            value <= max,
            forall|k: int| 0 <= k < i - start ==> digit_value(#[trigger] d[k]) < radix,
            value == number_of(d.take(i - start), radix as int),
            d == unsigned(s@),
        decreases v@.len() - i,
    {
        let x: u64 = digit(v[i]);
        assert(d[i - start] == v@[i as int]);
        if x >= radix {
            return None;
        }
        assert(d.take(i - start + 1).drop_last() =~= d.take(i - start));
        assert(number_of(d.take(i - start + 1), radix as int) == value * radix + x);
        assert(value * radix <= u64::MAX * 16) by (nonlinear_arith)
            requires
                value <= u64::MAX,
                radix <= 16,
        ;
        let wide: u128 = value as u128 * radix as u128 + x as u128;
        if wide > max as u128 {
            proof {
                if all_digits(d, radix as int) {
                    lemma_number_grows(d, i - start + 1, radix as int);
                }
            }
            return None;
        }
        value = wide as u64;
        i += 1;
    }
    assert(d.take(i - start) =~= d);
    Some(value)
}

/// The length of the run of decimal digits that `s` starts with.
pub open spec fn digit_run(s: Seq<char>) -> int
    decreases s.len(),
{
    if s.len() == 0 || digit_value(s[0]) >= 10 {
        0
    } else {
        1 + digit_run(s.skip(1))
    }
}

proof fn lemma_digit_run(s: Seq<char>)
    ensures
        0 <= digit_run(s) <= s.len(),
        forall|k: int| 0 <= k < digit_run(s) ==> digit_value(#[trigger] s[k]) < 10,
        digit_run(s) < s.len() ==> digit_value(s[digit_run(s)]) >= 10,
    decreases s.len(),
{
    if s.len() > 0 && digit_value(s[0]) < 10 {
        lemma_digit_run(s.skip(1));
        assert forall|k: int| 0 <= k < digit_run(s) implies digit_value(#[trigger] s[k]) < 10 by {
            if k > 0 {
                assert(s.skip(1)[k - 1] == s[k]);
            }
        }
    }
}

/// What is wrong with a text that is no decimal number up to `max`: it is
/// empty, something in it is no digit, or, with its digits up to there, it is
/// already too large.
pub open spec fn number_problem(s: Seq<char>, max: int) -> Seq<char> {
    let d = unsigned(s);
    if s.len() == 0 {
        "cannot parse integer from empty string"@
    } else if d.len() == 0 || (digit_run(d) < d.len() && number_of(d.take(digit_run(d)), 10)
        <= max) {
        "invalid digit found in string"@
    } else {
        "number too large to fit in target type"@
    }
}

/// What is wrong with a text that is no decimal number up to `max`.
pub fn explain_number(s: &str, max: u64) -> (r: &'static str)
    ensures
        r@ == number_problem(s@, max as int),
        s@.len() == 0 ==> r@ == "cannot parse integer from empty string"@,
        s@ == seq!['+'] ==> r@ == "invalid digit found in string"@,
        unsigned(s@).len() > 0 && all_digits(unsigned(s@), 10) ==> r@
            == "number too large to fit in target type"@,
        forall|n: int|
            0 <= n < unsigned(s@).len() && all_digits(#[trigger] unsigned(s@).take(n), 10)
                && digit_value(unsigned(s@)[n]) >= 10 ==> r@ == (if number_of(
                unsigned(s@).take(n),
                10,
            ) <= max {
                "invalid digit found in string"@
            } else {
                "number too large to fit in target type"@
            }),
{
    proof {
        lemma_digit_run(unsigned(s@));
        assert(seq!['+'].skip(1) =~= Seq::<char>::empty());
        let d = unsigned(s@);
        assert forall|n: int|
            0 <= n < d.len() && all_digits(#[trigger] d.take(n), 10) && digit_value(d[n]) >= 10 implies digit_run(
            d,
        ) == n by {
            let m = digit_run(d);
            if m < n {
                assert(d.take(n)[m] == d[m]);
            }
        }
    }
    let v: Vec<char> = chars_of(s);
    if v.len() == 0 {
        return "cannot parse integer from empty string";
    }
    let start: usize = if v[0] == '+' {
        1
    } else {
        0
    };
    let ghost d = unsigned(s@);
    assert(d =~= v@.skip(start as int));
    if start == v.len() {
        return "invalid digit found in string";
    }
    let mut i: usize = start;
    while i < v.len() && digit(v[i]) < 10
        invariant
            start <= i <= v@.len(),
            v@ == s@,
            d == v@.skip(start as int),
            digit_run(d) == i - start + digit_run(v@.skip(i as int)),
            forall|k: int| start <= k < i ==> digit_value(#[trigger] v@[k]) < 10,
        decreases v@.len() - i,
    {
        assert(v@.skip(i as int).skip(1) =~= v@.skip(i + 1));
        i += 1;
    }
    assert(digit_run(d) == i - start);
    if i == v.len() {
        return "number too large to fit in target type";
    }
    if i == start {
        assert(d.take(0) =~= Seq::<char>::empty());
        return "invalid digit found in string";
    }
    let head: String = text_of(&v, start, i);
    assert(head@ =~= d.take(i - start));
    assert(head@[0] == v@[start as int]);
    assert(unsigned(head@) == head@);
    assert(all_digits(head@, 10)) by {
        assert forall|k: int| 0 <= k < head@.len() implies digit_value(#[trigger] head@[k]) < 10 by {
            assert(head@[k] == v@[start + k]);
        }
    }
    if parse_number(head.as_str(), 10, max).is_some() {
        "invalid digit found in string"
    } else {
        "number too large to fit in target type"
    }
}

/// The digits of `n` in base `radix`.
pub open spec fn digits_of(n: nat, radix: nat) -> Seq<char>
    decreases n,
{
    if radix < 2 {
        Seq::empty()
    } else if n < radix {
        seq![digit_char(n as int)]
    } else {
        proof {
            assert(n / radix < n) by (nonlinear_arith)
                requires
                    2 <= radix <= n,
            ;
        }
        digits_of(n / radix, radix).push(digit_char((n % radix) as int))
    }
}

/// The character that writes the digit `d`.
pub open spec fn digit_char(d: int) -> char {
    if d < 10 {
        ((0x30 + d) as u8) as char
    } else {
        ((0x61 + d - 10) as u8) as char
    }
}

/// The decimal digits of `n`.
pub open spec fn decimal(n: nat) -> Seq<char> {
    digits_of(n, 10)
}

/// Appends the digits of `n` in base `radix`.
pub fn push_digits(s: &mut String, n: u64, radix: u64)
    requires
        2 <= radix <= 16,
    ensures
        final(s)@ == old(s)@ + digits_of(n as nat, radix as nat),
    decreases n,
{
    if n >= radix {
        assert(n / radix < n) by (nonlinear_arith)
            requires
                2 <= radix <= n,
        ;
        push_digits(s, n / radix, radix);
    }
    let d: u64 = n % radix;
    assert(d < 16 && (n < radix ==> d == n)) by (nonlinear_arith)
        requires
            d == n % radix,
            2 <= radix <= 16,
    ;
    let c: char = if d < 10 {
        (0x30 + d) as u8 as char
    } else {
        (0x61 + d - 10) as u8 as char
    };
    s.push(c);
    assert(s@ =~= old(s)@ + digits_of(n as nat, radix as nat));
}

/// The decimal digits of `n`.
pub fn decimal_text(n: u64) -> (r: String)
    ensures
        r@ == decimal(n as nat),
        parsed(r@, 10, u64::MAX as int) == Some(n as int),
        forall|k: int| 0 <= k < r@.len() ==> 0x30 <= (#[trigger] r@[k]) as u32 <= 0x39,
        r@[0] == '0' ==> n == 0 && r@ == seq!['0'],
{
    proof {
        law_number_roundtrip(n as nat, 10, u64::MAX as int);
        law_decimal_is_plain(n as nat);
    }
    let mut s: String = String::new();
    push_digits(&mut s, n, 10);
    assert(s@ =~= decimal(n as nat));
    s
}

/// The digits of a number are digits, and at least one.
pub proof fn lemma_digits(n: nat, radix: nat)
    requires
        2 <= radix <= 16,
    ensures
        digits_of(n, radix).len() > 0,
        all_digits(digits_of(n, radix), radix as int),
        number_of(digits_of(n, radix), radix as int) == n,
        forall|k: int|
            0 <= k < digits_of(n, radix).len() ==> #[trigger] digits_of(n, radix)[k] != '+'
                && !is_space(digits_of(n, radix)[k]) && digits_of(n, radix)[k] != '\n',
    decreases n,
{
    let s = digits_of(n, radix);
    let d = if n < radix { n as int } else { (n % radix) as int };
    assert(0 <= d < radix) by (nonlinear_arith)
        requires
            d == (if n < radix { n as int } else { (n % radix) as int }),
            2 <= radix,
            n >= 0,
    ;
    assert(digit_value(digit_char(d)) == d);
    if n < radix {
        assert(s =~= seq![digit_char(d)]);
        assert(s.drop_last() =~= Seq::<char>::empty());
        reveal_with_fuel(number_of, 2);
    } else {
        assert(n / radix < n) by (nonlinear_arith)
            requires
                2 <= radix <= n,
        ;
        lemma_digits(n / radix, radix);
        assert(s.drop_last() =~= digits_of(n / radix, radix));
        assert(n == (n / radix) * radix + n % radix) by (nonlinear_arith)
            requires
                2 <= radix,
        ;
    }
}

/// Writing a number and reading it back gives the number.
pub proof fn law_number_roundtrip(n: nat, radix: nat, max: int)
    requires
        2 <= radix <= 16,
        n <= max,
    ensures
        parsed(digits_of(n, radix), radix as int, max) == Some(n as int),
{
    lemma_digits(n, radix);
}

/// A number is written with decimal digits alone, and without zeros in front.
pub proof fn law_decimal_is_plain(n: nat)
    ensures
        decimal(n).len() > 0,
        forall|k: int| 0 <= k < decimal(n).len() ==> 0x30 <= (#[trigger] decimal(n)[k]) as u32 <= 0x39,
        decimal(n)[0] == '0' ==> n == 0 && decimal(n) == seq!['0'],
    decreases n,
{
    if n >= 10 {
        law_decimal_is_plain(n / 10);
        let less = decimal(n / 10);
        assert(decimal(n) == less.push(digit_char((n % 10) as int)));
        assert(decimal(n)[0] == less[0]);
    }
}

// --- order -------------------------------------------------------------------

/// `a` comes no later than `b` in the order of code points, which is also the
/// order of the UTF-8 bytes.
pub open spec fn at_most(a: Seq<char>, b: Seq<char>) -> bool
    decreases a.len(),
{
    if a.len() == 0 {
        true
    } else if b.len() == 0 {
        false
    } else if a[0] != b[0] {
        a[0] < b[0]
    } else {
        at_most(a.skip(1), b.skip(1))
    }
}

/// Any two texts are in order, one way or the other.
pub proof fn lemma_at_most_total(a: Seq<char>, b: Seq<char>)
    ensures
        at_most(a, b) || at_most(b, a),
    decreases a.len(),
{
    if a.len() > 0 && b.len() > 0 && a[0] == b[0] {
        lemma_at_most_total(a.skip(1), b.skip(1));
    }
}

pub proof fn lemma_at_most_transitive(a: Seq<char>, b: Seq<char>, c: Seq<char>)
    requires
        at_most(a, b),
        at_most(b, c),
    ensures
        at_most(a, c),
    decreases a.len(),
{
    if a.len() > 0 && b.len() > 0 && c.len() > 0 && a[0] == b[0] && b[0] == c[0] {
        lemma_at_most_transitive(a.skip(1), b.skip(1), c.skip(1));
    }
}

/// Whether `a` comes no later than `b`.
pub fn in_order(a: &str, b: &str) -> (r: bool)
    ensures
        r == at_most(a@, b@),
        r ==> exists|k: int|
            0 <= k <= a@.len() && k <= b@.len() && #[trigger] a@.take(k) == b@.take(k) && (k == a@.len()
                || (k < b@.len() && a@[k] < b@[k])),
        !r ==> exists|k: int|
            0 <= k < a@.len() && k <= b@.len() && #[trigger] a@.take(k) == b@.take(k) && (k == b@.len()
                || b@[k] < a@[k]),
{
    let x: Vec<char> = chars_of(a);
    let y: Vec<char> = chars_of(b);
    let mut i: usize = 0;
    assert(x@.skip(0) =~= x@);
    assert(y@.skip(0) =~= y@);
    assert(a@.take(0) =~= b@.take(0));
    while i < x.len()
        invariant
            i <= x@.len(),
            i <= y@.len(),
            x@ == a@,
            y@ == b@,
            at_most(a@, b@) == at_most(x@.skip(i as int), y@.skip(i as int)),
            a@.take(i as int) == b@.take(i as int),
        decreases x@.len() - i,
    {
        if i == y.len() {
            return false;
        }
        if x[i] != y[i] {
            return x[i] < y[i];
        }
        assert(x@.skip(i as int).skip(1) =~= x@.skip(i + 1));
        assert(y@.skip(i as int).skip(1) =~= y@.skip(i + 1));
        assert(a@.take(i + 1) =~= a@.take(i as int).push(a@[i as int]));
        assert(b@.take(i + 1) =~= b@.take(i as int).push(b@[i as int]));
        i += 1;
    }
    true
}

} // verus!
