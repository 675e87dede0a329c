//! Shaping captured command output for a reader with a bounded context.
//!
//! Output is captured up to a cap, then rendered in three steps: lossy UTF-8,
//! head and tail lines around a marker, head and tail bytes around a marker.
//! Each marker says how much was dropped.

use vstd::prelude::*;
use vstd::slice::slice_subrange;
use vstd::utf8::*;

use crate::text;
use crate::text::{copied, from_utf8_lossy, lines, push_digits};

verus! {

/// At most this many lines of a stream are shown.
pub const MAX_LINES: usize = 200;

/// At most this many bytes of a stream are shown, once its lines are clamped.
pub const MAX_BYTES: usize = 65536;

/// A stream is no longer captured beyond this many bytes.
pub const MAX_CAPTURE: usize = 4194304;

/// What a capture buffer holds after `data` arrives.
pub open spec fn captured(buf: Seq<u8>, data: Seq<u8>) -> Seq<u8> {
    if buf.len() >= MAX_CAPTURE {
        buf
    } else if buf.len() + data.len() <= MAX_CAPTURE {
        buf + data
    } else {
        buf + data.take(MAX_CAPTURE - buf.len())
    }
}

/// Appends `data` to the capture buffer, as far as the cap leaves room.
pub fn push_capped(buf: &mut Vec<u8>, data: &[u8])
    ensures
        final(buf)@ == captured(old(buf)@, data@),
{
    if buf.len() >= MAX_CAPTURE {
        return;
    }
    let room: usize = MAX_CAPTURE - buf.len();
    let n: usize = if data.len() < room {
        data.len()
    } else {
        room
    };
    buf.extend_from_slice(slice_subrange(data, 0, n));
    assert(buf@ =~= old(buf)@ + data@.take(n as int));
    assert(n == data@.len() ==> data@.take(n as int) =~= data@);
}

// --- lines -------------------------------------------------------------------

/// The lines `l`, each followed by a newline.
pub open spec fn with_newlines(l: Seq<Seq<char>>) -> Seq<char>
    decreases l.len(),
{
    if l.len() == 0 {
        Seq::empty()
    } else {
        with_newlines(l.drop_last()) + l.last().push('\n')
    }
}

/// The line that stands for `n` dropped lines.
pub open spec fn line_marker(n: nat) -> Seq<char> {
    "[... "@ + text::decimal(n) + " lines omitted ...]\n"@
}

/// `s` itself, or the first and the last lines of `s` around a marker.
pub open spec fn clamped_lines(s: Seq<char>) -> Seq<char> {
    let l = text::lines_of(s);
    let head = MAX_LINES as int / 2;
    let tail = MAX_LINES - head;
    if l.len() <= MAX_LINES {
        s
    } else {
        with_newlines(l.take(head)) + line_marker((l.len() - head - tail) as nat) + with_newlines(
            l.skip(l.len() - tail),
        )
    }
}

fn push_lines(out: &mut String, l: &Vec<String>, from: usize, to: usize)
    requires
        from <= to <= l@.len(),
    ensures
        final(out)@ == old(out)@ + with_newlines(text::views(l@).subrange(from as int, to as int)),
{
    let ghost v = text::views(l@);
    let mut i: usize = from;
    assert(v.subrange(from as int, from as int) =~= Seq::<Seq<char>>::empty());
    assert(out@ =~= old(out)@ + with_newlines(v.subrange(from as int, i as int)));
    while i < to
        invariant
            from <= i <= to <= l@.len(),
            v == text::views(l@),
            out@ == old(out)@ + with_newlines(v.subrange(from as int, i as int)),
        decreases to - i,
    {
        out.append(l[i].as_str());
        out.push('\n');
        proof {
            let next = v.subrange(from as int, i + 1);
            assert(next.drop_last() =~= v.subrange(from as int, i as int));
            assert(next.last() == l@[i as int]@);
            assert(out@ =~= old(out)@ + with_newlines(next));
        }
        i += 1;
    }
}

/// Keeps at most `MAX_LINES` lines: the head and the tail, with a marker in
/// between.
pub fn clamp_lines(s: &str) -> (r: String)
    ensures
        r@ == clamped_lines(s@),
{
    let l: Vec<String> = lines(s);
    assert(text::views(l@).len() == l@.len());
    if l.len() <= MAX_LINES {
        return copied(s);
    }
    let head: usize = MAX_LINES / 2;
    let tail: usize = MAX_LINES - head;
    let omitted: usize = l.len() - head - tail;
    let mut out: String = String::new();
    push_lines(&mut out, &l, 0, head);
    out.append("[... ");
    push_digits(&mut out, omitted as u64, 10);
    out.append(" lines omitted ...]\n");
    push_lines(&mut out, &l, l.len() - tail, l.len());
    proof {
        let v = text::views(l@);
        assert(v.subrange(0, head as int) =~= v.take(head as int));
        assert(v.subrange(l@.len() - tail, l@.len() as int) =~= v.skip(v.len() - tail));
        assert(out@ =~= clamped_lines(s@));
    }
    out
}

// --- bytes -------------------------------------------------------------------

/// The last character boundary at or before `i`.
pub open spec fn floor_index(b: Seq<u8>, i: int) -> int
    decreases i,
{
    if i <= 0 || is_char_boundary(b, i) {
        i
    } else {
        floor_index(b, i - 1)
    }
}

/// The first character boundary at or after `i`, at most the length.
pub open spec fn ceil_index(b: Seq<u8>, i: int) -> int
    decreases b.len() - i,
{
    if i >= b.len() || is_char_boundary(b, i) {
        i
    } else {
        ceil_index(b, i + 1)
    }
}

/// The last character boundary of `s` at or before `i`.
pub fn floor_boundary(s: &str, i: usize) -> (r: usize)
    ensures
        r == floor_index(encode_utf8(s@), i as int),
        r <= i,
        is_char_boundary(encode_utf8(s@), r as int),
{
    proof {
        encode_utf8_valid_utf8(s@);
        is_char_boundary_start_end_of_seq(encode_utf8(s@));
    }
    let mut j: usize = i;
    while j > 0 && !s.is_char_boundary(j)
        invariant
            j <= i,
            floor_index(encode_utf8(s@), i as int) == floor_index(encode_utf8(s@), j as int),
            is_char_boundary(encode_utf8(s@), 0),
        decreases j,
    {
        j -= 1;
    }
    j
}

/// The first character boundary of `s` at or after `i`, at most its length.
pub fn ceil_boundary(s: &str, i: usize) -> (r: usize)
    ensures
        r == ceil_index(encode_utf8(s@), i as int),
        r >= i,
        i <= encode_utf8(s@).len() ==> r <= encode_utf8(s@).len() && is_char_boundary(
            encode_utf8(s@),
            r as int,
        ),
{
    proof {
        encode_utf8_valid_utf8(s@);
        is_char_boundary_start_end_of_seq(encode_utf8(s@));
    }
    let n: usize = s.as_bytes().len();
    let mut j: usize = i;
    while j < n && !s.is_char_boundary(j)
        invariant
            i <= j,
            n == encode_utf8(s@).len(),
            i <= n ==> j <= n,
            ceil_index(encode_utf8(s@), i as int) == ceil_index(encode_utf8(s@), j as int),
        decreases n - j,
    {
        j += 1;
    }
    j
}

/// The line that stands for `n` dropped bytes.
pub open spec fn byte_marker(n: nat) -> Seq<char> {
    "\n[... "@ + text::decimal(n) + " bytes omitted ...]\n"@
}

/// `s` itself, or what its first and its last bytes encode around a marker,
/// cut at character boundaries.
pub open spec fn clamped_bytes(s: Seq<char>) -> Seq<char> {
    let b = encode_utf8(s);
    let half = MAX_BYTES as int / 2;
    let head = floor_index(b, half);
    let tail = ceil_index(b, b.len() - half);
    if b.len() <= MAX_BYTES {
        s
    } else {
        decode_utf8(b.subrange(0, head)) + byte_marker((tail - head) as nat) + decode_utf8(
            b.subrange(tail, b.len() as int),
        )
    }
}

/// Keeps at most `MAX_BYTES` bytes: the head and the tail, with a marker in
/// between.
pub fn clamp_bytes(s: String) -> (r: String)
    ensures
        r@ == clamped_bytes(s@),
{
    let n: usize = s.as_str().as_bytes().len();
    if n <= MAX_BYTES {
        return s;
    }
    let head_end: usize = floor_boundary(s.as_str(), MAX_BYTES / 2);
    let tail_start: usize = ceil_boundary(s.as_str(), n - MAX_BYTES / 2);
    let omitted: usize = tail_start - head_end;
    let (head, _): (&str, &str) = s.as_str().split_at(head_end);
    let (_, tail): (&str, &str) = s.as_str().split_at(tail_start);
    proof {
        encode_utf8_decode_utf8(head@);
        encode_utf8_decode_utf8(tail@);
    }
    let mut out: String = copied(head);
    out.append("\n[... ");
    push_digits(&mut out, omitted as u64, 10);
    out.append(" bytes omitted ...]\n");
    out.append(tail);
    assert(out@ =~= clamped_bytes(s@));
    out
}

/// What a captured byte stream is shown as.
pub open spec fn clamped(bytes: Seq<u8>) -> Seq<char> {
    clamped_bytes(clamped_lines(text::lossy_utf8(bytes)))
}

/// Renders captured bytes: lossy UTF-8, then the line clamp, then the byte
/// clamp. Well-formed output within both limits is shown unchanged.
pub fn clamp(bytes: &[u8]) -> (r: String)
    ensures
        r@ == clamped(bytes@),
        r@ == clamped_bytes(clamped_lines(text::lossy_utf8(bytes@))),
        valid_utf8(bytes@) ==> r@ == clamped_bytes(clamped_lines(decode_utf8(bytes@))),
{
    let whole: String = from_utf8_lossy(bytes);
    clamp_bytes(clamp_lines(whole.as_str()))
}

// --- laws --------------------------------------------------------------------

/// Output within both limits is shown verbatim.
pub proof fn law_short_output_is_verbatim(s: Seq<char>)
    requires
        text::lines_of(s).len() <= MAX_LINES,
        encode_utf8(s).len() <= MAX_BYTES,
    ensures
        clamped_bytes(clamped_lines(s)) == s,
{
}

/// A capture buffer never outgrows the cap, and what it holds it keeps.
pub proof fn law_capture_is_bounded(buf: Seq<u8>, data: Seq<u8>)
    requires
        buf.len() <= MAX_CAPTURE,
    ensures
        captured(buf, data).len() <= MAX_CAPTURE,
        captured(buf, data).take(buf.len() as int) == buf,
        buf.len() == MAX_CAPTURE ==> captured(buf, data) == buf,
{
    assert(captured(buf, data).take(buf.len() as int) =~= buf);
}

proof fn lemma_encode_concat(a: Seq<char>, b: Seq<char>)
    ensures
        encode_utf8(a + b) == encode_utf8(a) + encode_utf8(b),
    decreases a.len(),
{
    if a.len() == 0 {
        assert(a + b =~= b);
        assert(encode_utf8(a) + encode_utf8(b) =~= encode_utf8(b));
    } else {
        assert((a + b).drop_first() =~= a.drop_first() + b);
        lemma_encode_concat(a.drop_first(), b);
        assert(encode_utf8(a + b) =~= encode_utf8(a) + encode_utf8(b));
    }
}

spec fn power_of_ten(k: nat) -> nat
    decreases k,
{
    if k == 0 {
        1
    } else {
        10 * power_of_ten((k - 1) as nat)
    }
}

proof fn lemma_digit_count(n: nat, k: nat)
    requires
        n < power_of_ten(k),
        k > 0,
    ensures
        text::decimal(n).len() <= k,
    decreases k,
{
    if n >= 10 {
        if k == 1 {
            reveal_with_fuel(power_of_ten, 2);
            assert(false);
        }
        lemma_digit_count(n / 10, (k - 1) as nat);
    }
}

proof fn lemma_marker_bytes(n: nat)
    requires
        n <= u64::MAX,
    ensures
        encode_utf8(byte_marker(n)).len() <= 46,
{
    reveal_strlit("\n[... ");
    reveal_strlit(" bytes omitted ...]\n");
    text::lemma_digits(n, 10);
    reveal_with_fuel(power_of_ten, 21);
    assert(power_of_ten(20) == 100000000000000000000);
    lemma_digit_count(n, 20);
    let m = byte_marker(n);
    assert forall|i: int| 0 <= i < m.len() implies (m[i] as u32) < 0x80 by {
        let d = text::decimal(n);
        if 6 <= i < 6 + d.len() {
            assert(m[i] == d[i - 6]);
            assert(text::digit_value(d[i - 6]) < 10);
        }
    }
    is_ascii_chars_encode_utf8(m);
}

proof fn lemma_floor(b: Seq<u8>, i: int)
    requires
        valid_utf8(b),
        0 <= i,
    ensures
        0 <= floor_index(b, i) <= i,
        is_char_boundary(b, floor_index(b, i)),
    decreases i,
{
    is_char_boundary_start_end_of_seq(b);
    if i > 0 && !is_char_boundary(b, i) {
        lemma_floor(b, i - 1);
    }
}

proof fn lemma_ceil(b: Seq<u8>, i: int)
    requires
        valid_utf8(b),
        0 <= i <= b.len(),
    ensures
        i <= ceil_index(b, i) <= b.len(),
        is_char_boundary(b, ceil_index(b, i)),
    decreases b.len() - i,
{
    is_char_boundary_start_end_of_seq(b);
    if i < b.len() && !is_char_boundary(b, i) {
        lemma_ceil(b, i + 1);
    }
}

/// However long a stream is, what is shown of it takes at most `MAX_BYTES`
/// bytes and one marker.
pub proof fn law_shown_bytes_are_bounded(s: Seq<char>)
    requires
        encode_utf8(s).len() <= u64::MAX,
    ensures
        encode_utf8(clamped_bytes(s)).len() <= MAX_BYTES + 46,
{
    let b = encode_utf8(s);
    let half = MAX_BYTES as int / 2;
    if b.len() > MAX_BYTES {
        encode_utf8_valid_utf8(s);
        let head = floor_index(b, half);
        let tail = ceil_index(b, b.len() - half);
        lemma_floor(b, half);
        lemma_ceil(b, b.len() - half);
        valid_utf8_split(b, head);
        valid_utf8_split(b, tail);
        let x = decode_utf8(b.subrange(0, head));
        let y = byte_marker((tail - head) as nat);
        let z = decode_utf8(b.subrange(tail, b.len() as int));
        decode_utf8_encode_utf8(b.subrange(0, head));
        decode_utf8_encode_utf8(b.subrange(tail, b.len() as int));
        lemma_encode_concat(x + y, z);
        lemma_encode_concat(x, y);
        lemma_marker_bytes((tail - head) as nat);
    }
}

spec fn one_line(l: Seq<char>) -> bool {
    forall|k: int| 0 <= k < l.len() ==> #[trigger] l[k] != '\n'
}

proof fn lemma_lines_are_lines(s: Seq<char>)
    ensures
        forall|i: int| 0 <= i < text::lines_of(s).len() ==> one_line(#[trigger] text::lines_of(s)[i]),
    decreases s.len(),
{
    let l = text::lines_of(s);
    text::lemma_until(s, '\n');
    let n = text::until(s, '\n');
    if 0 <= n < s.len() {
        let rest = text::lines_of(s.skip(n + 1));
        lemma_lines_are_lines(s.skip(n + 1));
        assert forall|i: int| 0 <= i < l.len() implies one_line(#[trigger] l[i]) by {
            if i > 0 {
                assert(l[i] == rest[i - 1]);
            }
        }
    }
}

proof fn lemma_line_first(l: Seq<char>, rest: Seq<char>)
    requires
        one_line(l),
    ensures
        text::lines_of(l.push('\n') + rest).len() == 1 + text::lines_of(rest).len(),
{
    let s = l.push('\n') + rest;
    text::lemma_until_is(s, '\n', l.len() as int);
    assert(s.skip(l.len() as int + 1) =~= rest);
}

proof fn lemma_line_count(l: Seq<Seq<char>>, rest: Seq<char>)
    requires
        forall|i: int| 0 <= i < l.len() ==> one_line(#[trigger] l[i]),
    ensures
        text::lines_of(with_newlines(l) + rest).len() == l.len() + text::lines_of(rest).len(),
    decreases l.len(),
{
    if l.len() == 0 {
        assert(with_newlines(l) + rest =~= rest);
    } else {
        let more = l.last().push('\n') + rest;
        assert(with_newlines(l) + rest =~= with_newlines(l.drop_last()) + more);
        assert forall|i: int| 0 <= i < l.drop_last().len() implies one_line(
            #[trigger] l.drop_last()[i],
        ) by {
            assert(l.drop_last()[i] == l[i]);
        }
        lemma_line_count(l.drop_last(), more);
        lemma_line_first(l.last(), rest);
    }
}

/// However many lines a stream has, what is shown of it has at most
/// `MAX_LINES` lines and one marker line.
pub proof fn law_shown_lines_are_bounded(s: Seq<char>)
    ensures
        text::lines_of(clamped_lines(s)).len() <= MAX_LINES + 1,
{
    let l = text::lines_of(s);
    let head = MAX_LINES as int / 2;
    let tail = MAX_LINES - head;
    if l.len() > MAX_LINES {
        let n = (l.len() - head - tail) as nat;
        lemma_lines_are_lines(s);
        let first = l.take(head);
        let last = l.skip(l.len() - tail);
        assert forall|i: int| 0 <= i < first.len() implies one_line(#[trigger] first[i]) by {
            assert(first[i] == l[i]);
        }
        assert forall|i: int| 0 <= i < last.len() implies one_line(#[trigger] last[i]) by {
            assert(last[i] == l[i + l.len() - tail]);
        }
        let m = line_marker(n);
        let z = with_newlines(last);
        assert(clamped_lines(s) =~= with_newlines(first) + (m + z));
        lemma_line_count(first, m + z);
        reveal_strlit("[... ");
        reveal_strlit(" lines omitted ...]\n");
        text::lemma_digits(n, 10);
        let d = text::decimal(n);
        let body = m.drop_last();
        assert forall|k: int| 0 <= k < body.len() implies #[trigger] body[k] != '\n' by {
            assert(body[k] == m[k]);
            if 5 <= k < 5 + d.len() {
                assert(m[k] == d[k - 5]);
            }
        }
        assert(body.push('\n') =~= m);
        lemma_line_first(body, z);
        lemma_line_count(last, Seq::empty());
        assert(z + Seq::<char>::empty() =~= z);
    }
}

proof fn lemma_pieces(l: Seq<Seq<char>>, rest: Seq<char>)
    requires
        forall|i: int| 0 <= i < l.len() ==> one_line(#[trigger] l[i]),
    ensures
        text::fields_of(with_newlines(l) + rest, '\n') == l + text::fields_of(rest, '\n'),
        text::lines_of(with_newlines(l) + rest) == l.map_values(
            |x: Seq<char>| text::line_body(x),
        ) + text::lines_of(rest),
    decreases l.len(),
{
    let bodies = l.map_values(|x: Seq<char>| text::line_body(x));
    if l.len() == 0 {
        assert(with_newlines(l) + rest =~= rest);
        assert(l + text::fields_of(rest, '\n') =~= text::fields_of(rest, '\n'));
        assert(bodies + text::lines_of(rest) =~= text::lines_of(rest));
    } else {
        let front = l.drop_last();
        let x = l.last();
        let more = x.push('\n') + rest;
        assert(with_newlines(l) + rest =~= with_newlines(front) + more);
        assert forall|i: int| 0 <= i < front.len() implies one_line(#[trigger] front[i]) by {
            assert(front[i] == l[i]);
        }
        lemma_pieces(front, more);
        assert(one_line(l[l.len() - 1]));
        text::lemma_until_is(more, '\n', x.len() as int);
        assert(more.take(x.len() as int) =~= x);
        assert(more.skip(x.len() as int + 1) =~= rest);
        assert(text::fields_of(more, '\n') =~= seq![x] + text::fields_of(rest, '\n'));
        assert(text::lines_of(more) =~= seq![text::line_body(x)] + text::lines_of(rest));
        assert(l + text::fields_of(rest, '\n') =~= front + text::fields_of(more, '\n'));
        assert(bodies + text::lines_of(rest) =~= front.map_values(
            |y: Seq<char>| text::line_body(y),
        ) + text::lines_of(more));
    }
}

/// Of output with more than 200 lines, the first 100 and the last 100 are
/// shown, each whole and on a line of its own, so that the end is never lost;
/// between them one line says how many there were besides. (Read as lines, a
/// line that is shown loses a carriage return that it still ends with.)
pub proof fn law_head_and_tail_are_shown(s: Seq<char>)
    requires
        text::lines_of(s).len() > 200,
    ensures
        text::fields_of(clamped_lines(s), '\n').len() == 202,
        forall|i: int|
            0 <= i < 100 ==> #[trigger] text::fields_of(clamped_lines(s), '\n')[i]
                == text::lines_of(s)[i],
        forall|i: int|
            101 <= i < 201 ==> #[trigger] text::fields_of(clamped_lines(s), '\n')[i]
                == text::lines_of(s)[text::lines_of(s).len() - 201 + i],
        text::fields_of(clamped_lines(s), '\n')[201].len() == 0,
        exists|d: Seq<char>|
            text::fields_of(clamped_lines(s), '\n')[100] == #[trigger] ("[... "@ + d
                + " lines omitted ...]"@) && text::parsed(d, 10, text::lines_of(s).len() as int)
                == Some(text::lines_of(s).len() - 200),
        text::lines_of(clamped_lines(s)).len() == 201,
        forall|i: int|
            0 <= i < 100 ==> #[trigger] text::lines_of(clamped_lines(s))[i] == text::line_body(
                text::lines_of(s)[i],
            ),
        forall|i: int|
            101 <= i < 201 ==> #[trigger] text::lines_of(clamped_lines(s))[i] == text::line_body(
                text::lines_of(s)[text::lines_of(s).len() - 201 + i],
            ),
{
    let l = text::lines_of(s);
    let n = (l.len() - 200) as nat;
    lemma_lines_are_lines(s);
    let first = l.take(100);
    let last = l.skip(l.len() - 100);
    assert forall|i: int| 0 <= i < first.len() implies one_line(#[trigger] first[i]) by {
        assert(first[i] == l[i]);
    }
    assert forall|i: int| 0 <= i < last.len() implies one_line(#[trigger] last[i]) by {
        assert(last[i] == l[i + l.len() - 100]);
    }
    reveal_strlit("[... ");
    reveal_strlit(" lines omitted ...]");
    reveal_strlit(" lines omitted ...]\n");
    text::lemma_digits(n, 10);
    text::law_number_roundtrip(n, 10, l.len() as int);
    let d = text::decimal(n);
    let body = "[... "@ + d + " lines omitted ...]"@;
    assert forall|k: int| 0 <= k < body.len() implies #[trigger] body[k] != '\n' by {
        if 5 <= k < 5 + d.len() {
            assert(body[k] == d[k - 5]);
        }
    }
    assert(line_marker(n) =~= body.push('\n'));
    let marked = seq![body];
    assert(marked.drop_last() =~= Seq::<Seq<char>>::empty());
    reveal_with_fuel(with_newlines, 2);
    assert(with_newlines(marked) =~= line_marker(n));
    let z = with_newlines(last);
    let none = Seq::<char>::empty();
    assert(clamped_lines(s) =~= with_newlines(first) + (with_newlines(marked) + (z + none)));
    lemma_pieces(first, with_newlines(marked) + (z + none));
    lemma_pieces(marked, z + none);
    lemma_pieces(last, none);
    text::lemma_until_is(none, '\n', 0);
    assert(text::fields_of(none, '\n') =~= seq![none]);
    assert(text::fields_of(clamped_lines(s), '\n') =~= first + (marked + (last + seq![none])));
}

/// What arrives is captured from its beginning, in order, until 4 MiB are held:
/// all of it where it fits, else just what fits.
pub proof fn law_captured_in_order(buf: Seq<u8>, data: Seq<u8>)
    requires
        buf.len() <= 4194304,
    ensures
        captured(buf, data).len() == (if buf.len() + data.len() <= 4194304 {
            (buf.len() + data.len()) as int
        } else {
            4194304
        }),
        captured(buf, data).is_prefix_of(buf + data),
{
    assert(captured(buf, data) =~= (buf + data).take(captured(buf, data).len() as int));
}

proof fn lemma_boundary(a: Seq<char>, c: Seq<char>)
    ensures
        is_char_boundary(encode_utf8(a + c), encode_utf8(a).len() as int),
{
    let b = encode_utf8(a + c);
    let k = encode_utf8(a).len() as int;
    lemma_encode_concat(a, c);
    encode_utf8_valid_utf8(a + c);
    if c.len() == 0 {
        assert(a + c =~= a);
        is_char_boundary_start_end_of_seq(b);
    } else {
        encode_utf8_first_scalar(c);
        assert(b[k] == encode_utf8(c)[0]);
        is_char_boundary_iff_is_leading_byte(b, k);
    }
}

proof fn lemma_floor_is_last(b: Seq<u8>, i: int, j: int)
    requires
        0 <= j <= i,
        is_char_boundary(b, j),
    ensures
        j <= floor_index(b, i),
    decreases i,
{
    if i > 0 && !is_char_boundary(b, i) {
        lemma_floor_is_last(b, i - 1, j);
    }
}

proof fn lemma_ceil_is_first(b: Seq<u8>, i: int, j: int)
    requires
        i <= j <= b.len(),
        is_char_boundary(b, j),
    ensures
        ceil_index(b, i) <= j,
    decreases b.len() - i,
{
    if i < b.len() && !is_char_boundary(b, i) {
        lemma_ceil_is_first(b, i + 1, j);
    }
}

/// A text is cut in two at a character boundary of its bytes.
proof fn lemma_cut(s: Seq<char>, k: int) -> (n: int)
    requires
        0 <= k <= encode_utf8(s).len(),
        is_char_boundary(encode_utf8(s), k),
    ensures
        0 <= n <= s.len(),
        decode_utf8(encode_utf8(s).subrange(0, k)) == s.take(n),
        decode_utf8(encode_utf8(s).subrange(k, encode_utf8(s).len() as int)) == s.skip(n),
        encode_utf8(s.take(n)).len() == k,
        encode_utf8(s.skip(n)).len() == encode_utf8(s).len() - k,
{
    let b = encode_utf8(s);
    encode_utf8_valid_utf8(s);
    valid_utf8_split(b, k);
    let x = decode_utf8(b.subrange(0, k));
    let y = decode_utf8(b.subrange(k, b.len() as int));
    encode_utf8_decode_utf8(s);
    decode_utf8_split(b, k);
    decode_utf8_encode_utf8(b.subrange(0, k));
    decode_utf8_encode_utf8(b.subrange(k, b.len() as int));
    assert(s == x + y);
    assert(s.take(x.len() as int) =~= x);
    assert(s.skip(x.len() as int) =~= y);
    x.len() as int
}

/// The bytes of a text up to a character, and from it on.
proof fn lemma_bytes_around(s: Seq<char>, n: int)
    requires
        0 <= n <= s.len(),
    ensures
        encode_utf8(s.take(n)).len() + encode_utf8(s.skip(n)).len() == encode_utf8(s).len(),
        is_char_boundary(encode_utf8(s), encode_utf8(s.take(n)).len() as int),
        n < s.len() ==> encode_utf8(s.take(n)).len() < encode_utf8(s.take(n + 1)).len(),
{
    assert(s.take(n) + s.skip(n) =~= s);
    lemma_encode_concat(s.take(n), s.skip(n));
    lemma_boundary(s.take(n), s.skip(n));
    if n < s.len() {
        let c = seq![s[n]];
        assert(s.take(n + 1) =~= s.take(n) + c);
        lemma_encode_concat(s.take(n), c);
        encode_utf8_first_scalar(c);
    }
}

proof fn lemma_bytes_grow(s: Seq<char>, m: int, n: int)
    requires
        0 <= m <= n <= s.len(),
    ensures
        encode_utf8(s.take(m)).len() <= encode_utf8(s.take(n)).len(),
    decreases n - m,
{
    if m < n {
        lemma_bytes_around(s, m);
        lemma_bytes_grow(s, m + 1, n);
    }
}

/// The head is as many whole characters as half the bytes hold.
proof fn lemma_head_is_full(s: Seq<char>, half: int) -> (m: int)
    requires
        0 <= half < encode_utf8(s).len(),
    ensures
        0 <= m < s.len(),
        decode_utf8(encode_utf8(s).subrange(0, floor_index(encode_utf8(s), half))) == s.take(m),
        encode_utf8(s.take(m)).len() == floor_index(encode_utf8(s), half),
        encode_utf8(s.take(m)).len() <= half,
        encode_utf8(s.take(m + 1)).len() > half,
{
    let b = encode_utf8(s);
    encode_utf8_valid_utf8(s);
    lemma_floor(b, half);
    let m = lemma_cut(s, floor_index(b, half));
    if m == s.len() {
        assert(s.take(m) =~= s);
    }
    lemma_bytes_around(s, m);
    lemma_bytes_around(s, m + 1);
    if encode_utf8(s.take(m + 1)).len() <= half {
        lemma_floor_is_last(b, half, encode_utf8(s.take(m + 1)).len() as int);
    }
    m
}

/// The tail is as many whole characters as half the bytes hold.
proof fn lemma_tail_is_full(s: Seq<char>, half: int) -> (n: int)
    requires
        0 <= half < encode_utf8(s).len(),
    ensures
        0 < n <= s.len(),
        ({
            let b = encode_utf8(s);
            let e = ceil_index(b, b.len() - half);
            &&& decode_utf8(b.subrange(e, b.len() as int)) == s.skip(n)
            &&& encode_utf8(s.take(n)).len() == e
            &&& b.len() - half <= e <= b.len()
        }),
        encode_utf8(s.skip(n)).len() <= half,
        encode_utf8(s.skip(n - 1)).len() > half,
{
    let b = encode_utf8(s);
    encode_utf8_valid_utf8(s);
    lemma_ceil(b, b.len() - half);
    let n = lemma_cut(s, ceil_index(b, b.len() - half));
    if n == 0 {
        assert(s.skip(0) =~= s);
    }
    lemma_bytes_around(s, n - 1);
    lemma_bytes_around(s, n);
    if encode_utf8(s.skip(n - 1)).len() <= half {
        lemma_ceil_is_first(b, b.len() - half, encode_utf8(s.take(n - 1)).len() as int);
    }
    n
}

/// Of output with more than 65536 bytes, the beginning and the end are shown,
/// each as many whole characters as 32768 bytes hold; between them stands how
/// many bytes were left out.
pub proof fn law_first_and_last_bytes_are_shown(s: Seq<char>)
    requires
        encode_utf8(s).len() > 65536,
    ensures
        exists|head: Seq<char>, mid: Seq<char>, tail: Seq<char>, d: Seq<char>|
            s == #[trigger] (head + mid + tail) && clamped_bytes(s) == #[trigger] (head
                + "\n[... "@ + d + " bytes omitted ...]\n"@ + tail) && text::parsed(
                d,
                10,
                encode_utf8(s).len() as int,
            ) == Some(encode_utf8(mid).len() as int) && mid.len() > 0 && encode_utf8(head).len()
                <= 32768 && encode_utf8(tail).len() <= 32768 && encode_utf8(
                head + seq![mid.first()],
            ).len() > 32768 && encode_utf8(seq![mid.last()] + tail).len() > 32768,
{
    let b = encode_utf8(s);
    let half = 32768;
    let h = floor_index(b, half);
    let e = ceil_index(b, b.len() - half);
    let m = lemma_head_is_full(s, half);
    let n = lemma_tail_is_full(s, half);
    if n <= m {
        lemma_bytes_grow(s, n, m);
    }
    let head = s.take(m);
    let mid = s.subrange(m, n);
    let tail = s.skip(n);
    assert(s =~= head + mid + tail);
    assert(s.take(n) =~= head + mid);
    lemma_encode_concat(head, mid);
    assert(head + seq![mid.first()] =~= s.take(m + 1));
    assert(seq![mid.last()] + tail =~= s.skip(n - 1));
    let d = text::decimal((e - h) as nat);
    text::law_number_roundtrip((e - h) as nat, 10, b.len() as int);
    assert(clamped_bytes(s) =~= head + "\n[... "@ + d + " bytes omitted ...]\n"@ + tail);
}

} // verus!
