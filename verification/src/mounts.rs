//! Reading the mount table.

use vstd::prelude::*;

use crate::text;
use crate::text::{
    chars_of, copied, fields, is_among, lines, parse_number, same, starts_with, text_of,
};

verus! {

/// Flags of a mount that a remount has to keep.
#[derive(Debug, Clone, Copy, PartialEq, Eq, Structural)]
pub struct MountFlags {
    pub nosuid: bool,
    pub nodev: bool,
    pub noexec: bool,
    pub noatime: bool,
    pub nodiratime: bool,
    pub relatime: bool,
}

/// The flags among a list of options.
pub open spec fn flags_in(options: Seq<Seq<char>>) -> MountFlags {
    MountFlags {
        nosuid: options.contains("nosuid"@),
        nodev: options.contains("nodev"@),
        noexec: options.contains("noexec"@),
        noatime: options.contains("noatime"@),
        nodiratime: options.contains("nodiratime"@),
        relatime: options.contains("relatime"@),
    }
}

/// The flags in a mount's options, which are separated by commas.
pub fn parse_mount_opts(opts: &str) -> (r: MountFlags)
    ensures
        r == flags_in(text::fields_of(opts@, ',')),
        r.nosuid <==> text::fields_of(opts@, ',').contains("nosuid"@),
        r.nodev <==> text::fields_of(opts@, ',').contains("nodev"@),
        r.noexec <==> text::fields_of(opts@, ',').contains("noexec"@),
        r.noatime <==> text::fields_of(opts@, ',').contains("noatime"@),
        r.nodiratime <==> text::fields_of(opts@, ',').contains("nodiratime"@),
        r.relatime <==> text::fields_of(opts@, ',').contains("relatime"@),
{
    let v: Vec<String> = fields(opts, ',');
    MountFlags {
        nosuid: is_among("nosuid", &v),
        nodev: is_among("nodev", &v),
        noexec: is_among("noexec", &v),
        noatime: is_among("noatime", &v),
        nodiratime: is_among("nodiratime", &v),
        relatime: is_among("relatime", &v),
    }
}

// --- escapes -----------------------------------------------------------------

/// The smaller of two numbers.
pub open spec fn smaller(a: int, b: int) -> int {
    if a < b {
        a
    } else {
        b
    }
}

/// A path as the mount table escapes it: a backslash and up to three more
/// characters that are a number in base 8 stand for that character; where they
/// are no such number, the backslash goes and they stay.
pub open spec fn unescaped(s: Seq<char>) -> Seq<char>
    decreases s.len(),
{
    if s.len() == 0 {
        Seq::empty()
    } else if s[0] != '\\' {
        seq![s[0]] + unescaped(s.skip(1))
    } else {
        let n = smaller(3, s.len() - 1);
        let digits = s.subrange(1, 1 + n);
        let rest = unescaped(s.skip(1 + n));
        match text::parsed(digits, 8, 255) {
            Some(v) => seq![(v as u8) as char] + rest,
            None => digits + rest,
        }
    }
}

/// Three octal digits behind a backslash stand for the character of that
/// number; any other character stands for itself.
pub proof fn law_escapes_stand_for_characters(a: int, b: int, c: int, x: char, rest: Seq<char>)
    requires
        0 <= a < 4,
        0 <= b < 8,
        0 <= c < 8,
        x != '\\',
    ensures
        unescaped(
            seq![
                '\\',
                (48 + a) as u8 as char,
                (48 + b) as u8 as char,
                (48 + c) as u8 as char,
            ] + rest,
        ) == seq![(64 * a + 8 * b + c) as u8 as char] + unescaped(rest),
        unescaped(seq![x] + rest) == seq![x] + unescaped(rest),
        unescaped(Seq::empty()) == Seq::<char>::empty(),
{
    let d = seq![(48 + a) as u8 as char, (48 + b) as u8 as char, (48 + c) as u8 as char];
    let s = seq![
        '\\',
        (48 + a) as u8 as char,
        (48 + b) as u8 as char,
        (48 + c) as u8 as char,
    ] + rest;
    assert(s.subrange(1, 4) =~= d);
    assert(s.skip(4) =~= rest);
    assert(d.drop_last() =~= seq![(48 + a) as u8 as char, (48 + b) as u8 as char]);
    assert(d.drop_last().drop_last() =~= seq![(48 + a) as u8 as char]);
    assert(d.drop_last().drop_last().drop_last() =~= Seq::<char>::empty());
    assert(text::digit_value(d[0]) == a && text::digit_value(d[1]) == b && text::digit_value(d[2])
        == c);
    reveal_with_fuel(text::number_of, 4);
    assert(text::number_of(d, 8) == 64 * a + 8 * b + c);
    assert(d[0] != '+');
    assert(text::parsed(d, 8, 255) == Some(64 * a + 8 * b + c));
    let t = seq![x] + rest;
    assert(t.skip(1) =~= rest);
}

/// A path of the mount table, without its escapes.
pub fn unescape_mountinfo(s: &str) -> (r: String)
    ensures
        r@ == unescaped(s@),
{
    let v: Vec<char> = chars_of(s);
    let mut out: String = String::new();
    let mut i: usize = 0;
    assert(v@.skip(0) =~= v@);
    assert(out@ + unescaped(v@) =~= unescaped(v@));
    while i < v.len()
        invariant
            i <= v@.len(),
            v@ == s@,
            unescaped(s@) =~= out@ + unescaped(v@.skip(i as int)),
        decreases v@.len() - i,
    {
        let ghost rest = v@.skip(i as int);
        let ghost before = out@;
        if v[i] != '\\' {
            out.push(v[i]);
            assert(rest.skip(1) =~= v@.skip(i + 1));
            assert(before + (seq![v@[i as int]] + unescaped(rest.skip(1))) =~= out@ + unescaped(
                v@.skip(i + 1),
            ));
            i += 1;
        } else {
            let left: usize = v.len() - i - 1;
            let n: usize = if left < 3 {
                left
            } else {
                3
            };
            let digits: String = text_of(&v, i + 1, i + 1 + n);
            assert(digits@ =~= rest.subrange(1, 1 + n));
            assert(rest.skip(1 + n) =~= v@.skip(i + 1 + n));
            match parse_number(digits.as_str(), 8, 255) {
                Some(x) => {
                    out.push(x as u8 as char);
                    assert(before + (seq![(x as u8) as char] + unescaped(rest.skip(1 + n))) =~= out@
                        + unescaped(v@.skip(i + 1 + n)));
                },
                None => {
                    out.append(digits.as_str());
                    assert(before + (digits@ + unescaped(rest.skip(1 + n))) =~= out@ + unescaped(
                        v@.skip(i + 1 + n),
                    ));
                },
            }
            i = i + 1 + n;
        }
    }
    assert(v@.skip(i as int) =~= Seq::<char>::empty());
    assert(out@ + Seq::<char>::empty() =~= out@);
    out
}

/// Where what follows a backslash is no number of one byte, the backslash goes
/// and that stays: three characters, or what is left of the text.
pub proof fn law_other_escapes_lose_the_backslash(d: Seq<char>, rest: Seq<char>)
    requires
        d.len() == 3 || (d.len() < 3 && rest.len() == 0),
        text::parsed(d, 8, 255) is None,
    ensures
        unescaped(seq!['\\'] + d + rest) == d + unescaped(rest),
{
    let s = seq!['\\'] + d + rest;
    let n = d.len() as int;
    assert(s.subrange(1, 1 + n) =~= d);
    assert(s.skip(1 + n) =~= rest);
}

// --- paths -------------------------------------------------------------------

/// Those of the names `v` that lead anywhere: not empty, and not a `.` other
/// than the first.
pub open spec fn proper(v: Seq<Seq<char>>) -> Seq<Seq<char>>
    decreases v.len(),
{
    if v.len() == 0 {
        Seq::empty()
    } else if v.last().len() == 0 || (v.last() == "."@ && v.len() > 1) {
        proper(v.drop_last())
    } else {
        proper(v.drop_last()).push(v.last())
    }
}

/// The steps of a path: to the root, where it starts there, and to each name.
pub open spec fn steps_of(path: Seq<char>) -> Seq<Seq<char>> {
    (if text::begins(path, "/"@) {
        seq!["/"@]
    } else {
        Seq::empty()
    }) + proper(text::fields_of(path, '/'))
}

/// `path` is `top`, or below it.
pub open spec fn lies_under(path: Seq<char>, top: Seq<char>) -> bool {
    steps_of(top).len() <= steps_of(path).len() && steps_of(path).take(steps_of(top).len() as int)
        == steps_of(top)
}

proof fn lemma_one_step(dir: Seq<char>, name: Seq<char>)
    requires
        dir.len() > 0 && dir[0] == '/',
        !name.contains('/'),
    ensures
        ({
            let path = dir + seq!['/'] + name;
            if name.len() == 0 || name == seq!['.'] {
                steps_of(path) == steps_of(dir)
            } else {
                steps_of(path) == steps_of(dir).push(name)
            }
        }),
{
    let path = dir + seq!['/'] + name;
    reveal_strlit("/");
    reveal_strlit(".");
    assert("."@ =~= seq!['.']);
    assert(dir.take(1) =~= "/"@);
    assert(path.take(1) =~= "/"@);
    text::law_fields_grow_at_the_end(dir, name, '/');
    let f = text::fields_of(dir, '/');
    assert(f.push(name).drop_last() =~= f);
    assert(f.push(name).last() == name);
    assert(f.len() > 0);
    assert(f.push(name).len() > 1);
    if name.len() == 0 || name == seq!['.'] {
        assert(proper(f.push(name)) == proper(f));
    } else {
        assert(proper(f.push(name)) == proper(f).push(name));
        assert(steps_of(path) =~= steps_of(dir).push(name));
    }
}

/// What is called `a` in a directory lies under that directory, and under the
/// directory itself everything does; it lies under its neighbour `b` just where
/// they are one and the same. A slash at the end, doubled slashes and single
/// dots lead nowhere.
pub proof fn law_names_lead_below(dir: Seq<char>, a: Seq<char>, b: Seq<char>)
    requires
        dir.len() > 0 && dir[0] == '/',
        a.len() > 0 && !a.contains('/') && a != seq!['.'],
        b.len() > 0 && !b.contains('/') && b != seq!['.'],
    ensures
        lies_under(dir, dir),
        lies_under(dir + seq!['/'] + a, dir),
        !lies_under(dir, dir + seq!['/'] + a),
        lies_under(dir + seq!['/'] + a, dir + seq!['/'] + b) <==> a == b,
        steps_of(dir + seq!['/']) == steps_of(dir),
        steps_of(dir + seq!['/', '.']) == steps_of(dir),
        steps_of(dir + seq!['/'] + a) == steps_of(dir).push(a),
{
    let n = steps_of(dir).len() as int;
    let x = dir + seq!['/'] + a;
    let y = dir + seq!['/'] + b;
    lemma_one_step(dir, a);
    lemma_one_step(dir, b);
    lemma_one_step(dir, Seq::empty());
    lemma_one_step(dir, seq!['.']);
    assert(dir + seq!['/'] + Seq::<char>::empty() =~= dir + seq!['/']);
    assert(dir + seq!['/'] + seq!['.'] =~= dir + seq!['/', '.']);
    assert(steps_of(dir).take(n) =~= steps_of(dir));
    assert(steps_of(x).take(n) =~= steps_of(dir));
    assert(steps_of(x).take(n + 1) =~= steps_of(x));
    assert(steps_of(x)[n] == a && steps_of(y)[n] == b);
}

fn steps(path: &str) -> (r: Vec<String>)
    ensures
        text::views(r@) == steps_of(path@),
{
    let v: Vec<String> = fields(path, '/');
    let ghost all = text::views(v@);
    let mut out: Vec<String> = Vec::new();
    if starts_with(path, "/") {
        out.push(copied("/"));
    }
    let ghost start = text::views(out@);
    let mut i: usize = 0;
    assert(all.take(0) =~= Seq::<Seq<char>>::empty());
    assert(start + proper(all.take(0)) =~= start);
    assert(start =~= (if text::begins(path@, "/"@) {
        seq!["/"@]
    } else {
        Seq::empty()
    }));
    while i < v.len()
        invariant
            i <= v@.len(),
            all == text::views(v@),
            text::views(out@) == start + proper(all.take(i as int)),
        decreases v@.len() - i,
    {
        let ghost before = out@;
        assert(all.take(i + 1).drop_last() =~= all.take(i as int));
        assert(all.take(i + 1).last() == v@[i as int]@);
        if !v[i].as_str().is_empty() && !(i > 0 && same(v[i].as_str(), ".")) {
            let w: String = v[i].clone();
            out.push(w);
            assert(text::views(out@) =~= text::views(before).push(w@));
            assert(text::views(out@) =~= start + proper(all.take(i + 1)));
        }
        i += 1;
    }
    assert(all.take(i as int) =~= all);
    out
}

/// Whether both paths lead to the same place.
pub fn same_path(a: &str, b: &str) -> (r: bool)
    ensures
        r == (steps_of(a@) == steps_of(b@)),
{
    let x: Vec<String> = steps(a);
    let y: Vec<String> = steps(b);
    let ghost xv = text::views(x@);
    let ghost yv = text::views(y@);
    if x.len() != y.len() {
        assert(xv.len() != yv.len());
        return false;
    }
    let mut i: usize = 0;
    while i < x.len()
        invariant
            i <= x@.len(),
            x@.len() == y@.len(),
            xv == text::views(x@),
            yv == text::views(y@),
            xv == steps_of(a@),
            yv == steps_of(b@),
            forall|k: int| 0 <= k < i ==> xv[k] == yv[k],
        decreases x@.len() - i,
    {
        assert(xv[i as int] == x@[i as int]@ && yv[i as int] == y@[i as int]@);
        if !same(x[i].as_str(), y[i].as_str()) {
            return false;
        }
        i += 1;
    }
    assert(xv =~= yv);
    true
}

fn is_under(path: &str, top: &str) -> (r: bool)
    ensures
        r == lies_under(path@, top@),
{
    let x: Vec<String> = steps(path);
    let y: Vec<String> = steps(top);
    let ghost xv = text::views(x@);
    let ghost yv = text::views(y@);
    assert(xv.len() == x@.len() && yv.len() == y@.len());
    if y.len() > x.len() {
        return false;
    }
    let mut i: usize = 0;
    while i < y.len()
        invariant
            i <= y@.len() <= x@.len(),
            xv == text::views(x@),
            yv == text::views(y@),
            xv == steps_of(path@),
            yv == steps_of(top@),
            xv.len() == x@.len(),
            yv.len() == y@.len(),
            forall|k: int| 0 <= k < i ==> xv[k] == yv[k],
        decreases y@.len() - i,
    {
        assert(xv[i as int] == x@[i as int]@ && yv[i as int] == y@[i as int]@);
        if !same(x[i].as_str(), y[i].as_str()) {
            assert(xv.take(yv.len() as int)[i as int] != yv[i as int]);
            return false;
        }
        i += 1;
    }
    assert(xv.take(yv.len() as int) =~= yv);
    true
}

fn depth(path: &str) -> (r: usize)
    ensures
        r == steps_of(path@).len(),
{
    let v: Vec<String> = steps(path);
    assert(text::views(v@).len() == v@.len());
    v.len()
}

// --- mounts ------------------------------------------------------------------

/// A mount: where it is, and its flags.
#[derive(Debug)]
pub struct MountPoint {
    pub path: String,
    pub flags: MountFlags,
}

/// What a list of mounts says.
pub open spec fn mount_views(v: Seq<MountPoint>) -> Seq<(Seq<char>, MountFlags)> {
    v.map_values(|m: MountPoint| (m.path@, m.flags))
}

/// The mount that a line of the mount table describes: the path is its fifth
/// field, the options its sixth.
pub open spec fn mount_in(line: Seq<char>) -> Option<(Seq<char>, MountFlags)> {
    let f = text::fields_of(line, ' ');
    if f.len() < 6 {
        None
    } else {
        Some((unescaped(f[4]), flags_in(text::fields_of(f[5], ','))))
    }
}

/// Of a line's fields, which are separated by spaces, the fifth is the path and
/// the sixth the options; a line with fewer describes no mount.
pub proof fn law_fifth_and_sixth_fields(f: Seq<Seq<char>>, line: Seq<char>)
    requires
        text::fields_of(line, ' ') == f,
    ensures
        mount_in(line) is Some <==> f.len() >= 6,
        mount_in(line) matches Some(m) ==> m.0 == unescaped(f[4]) && m.1.nosuid
            == text::fields_of(f[5], ',').contains("nosuid"@) && m.1.nodev == text::fields_of(
            f[5],
            ',',
        ).contains("nodev"@) && m.1.noexec == text::fields_of(f[5], ',').contains("noexec"@),
{
}

/// The mounts at or below `top` that the lines describe, in their order.
pub open spec fn mounts_in(lines: Seq<Seq<char>>, top: Seq<char>) -> Seq<(Seq<char>, MountFlags)>
    decreases lines.len(),
{
    if lines.len() == 0 {
        Seq::empty()
    } else {
        let rest = mounts_in(lines.drop_last(), top);
        match mount_in(lines.last()) {
            Some(m) => if lies_under(m.0, top) {
                rest.push(m)
            } else {
                rest
            },
            None => rest,
        }
    }
}

/// Just those mounts that some line describes and that lie at or below `top`.
pub proof fn law_mounts_below_are_found(
    lines: Seq<Seq<char>>,
    top: Seq<char>,
    m: (Seq<char>, MountFlags),
)
    ensures
        mounts_in(lines, top).contains(m) <==> lies_under(m.0, top) && exists|i: int|
            0 <= i < lines.len() && mount_in(#[trigger] lines[i]) == Some(m),
    decreases lines.len(),
{
    let all = mounts_in(lines, top);
    if lines.len() > 0 {
        let front = lines.drop_last();
        let rest = mounts_in(front, top);
        law_mounts_below_are_found(front, top, m);
        if rest.contains(m) {
            let k = choose|k: int| 0 <= k < rest.len() && rest[k] == m;
            assert(all[k] == m);
            let i = choose|i: int| 0 <= i < front.len() && mount_in(#[trigger] front[i]) == Some(m);
            assert(lines[i] == front[i]);
        }
        if mount_in(lines.last()) == Some(m) && lies_under(m.0, top) {
            assert(all.last() == m);
            assert(lines[lines.len() - 1] == lines.last());
        }
        if all.contains(m) && !rest.contains(m) {
            let k = choose|k: int| 0 <= k < all.len() && all[k] == m;
            if k < rest.len() {
                assert(rest[k] == m);
            }
            assert(mount_in(lines.last()) == Some(m));
            assert(mount_in(lines[lines.len() - 1]) == Some(m));
        }
        if lies_under(m.0, top) && exists|i: int|
            0 <= i < lines.len() && mount_in(#[trigger] lines[i]) == Some(m) {
            let i = choose|i: int| 0 <= i < lines.len() && mount_in(#[trigger] lines[i]) == Some(m);
            if i < front.len() {
                assert(mount_in(front[i]) == Some(m));
            }
        }
    }
}

/// How many of the mounts at the front of `s` are no deeper than `d`.
pub open spec fn shallow(s: Seq<(Seq<char>, MountFlags)>, d: int) -> int
    decreases s.len(),
{
    if s.len() == 0 || steps_of(s[0].0).len() > d {
        0
    } else {
        1 + shallow(s.skip(1), d)
    }
}

/// The mounts `s`, parents before children; those of one depth keep their
/// order.
pub open spec fn by_depth(s: Seq<(Seq<char>, MountFlags)>) -> Seq<(Seq<char>, MountFlags)>
    decreases s.len(),
{
    if s.len() == 0 {
        Seq::empty()
    } else {
        let rest = by_depth(s.drop_last());
        rest.insert(shallow(rest, steps_of(s.last().0).len() as int), s.last())
    }
}

proof fn lemma_shallow(s: Seq<(Seq<char>, MountFlags)>, d: int)
    ensures
        0 <= shallow(s, d) <= s.len(),
        forall|k: int| 0 <= k < shallow(s, d) ==> steps_of((#[trigger] s[k]).0).len() <= d,
        shallow(s, d) < s.len() ==> steps_of(s[shallow(s, d)].0).len() > d,
    decreases s.len(),
{
    if s.len() > 0 && steps_of(s[0].0).len() <= d {
        lemma_shallow(s.skip(1), d);
        assert forall|k: int| 0 <= k < shallow(s, d) implies steps_of((#[trigger] s[k]).0).len()
            <= d by {
            if k > 0 {
                assert(s[k] == s.skip(1)[k - 1]);
            }
        }
    }
}

/// A mount never comes before one that it lies under, and all mounts are
/// there.
pub proof fn law_parents_come_first(s: Seq<(Seq<char>, MountFlags)>)
    ensures
        by_depth(s).len() == s.len(),
        by_depth(s).to_multiset() == s.to_multiset(),
        forall|i: int, j: int|
            0 <= i < j < by_depth(s).len() ==> steps_of((#[trigger] by_depth(s)[i]).0).len()
                <= steps_of((#[trigger] by_depth(s)[j]).0).len(),
    decreases s.len(),
{
    broadcast use vstd::seq_lib::group_to_multiset_ensures;

    if s.len() > 0 {
        let t = s.drop_last();
        let rest = by_depth(t);
        let x = s.last();
        let d = steps_of(x.0).len() as int;
        let n = shallow(rest, d);
        law_parents_come_first(t);
        lemma_shallow(rest, d);
        let r = by_depth(s);
        assert(r == rest.insert(n, x));
        assert(s =~= t.push(x));
        vstd::seq_lib::to_multiset_insert(rest, n, x);
        assert forall|i: int, j: int| 0 <= i < j < r.len() implies steps_of(
            (#[trigger] r[i]).0,
        ).len() <= steps_of((#[trigger] r[j]).0).len() by {
            let a = if i < n { i } else { i - 1 };
            let b = if j < n { j } else { j - 1 };
            if i != n {
                assert(r[i] == rest[a]);
            }
            if j != n {
                assert(r[j] == rest[b]);
            }
            if i == n && n < rest.len() {
                if n < b {
                    assert(steps_of(rest[n].0).len() <= steps_of(rest[b].0).len());
                }
            }
        }
    } else {
        assert(by_depth(s) =~= s);
    }
}

fn insert_by_depth(list: &mut Vec<MountPoint>, m: MountPoint)
    ensures
        mount_views(final(list)@) == mount_views(old(list)@).insert(
            shallow(mount_views(old(list)@), steps_of(m.path@).len() as int),
            (m.path@, m.flags),
        ),
{
    let d: usize = depth(m.path.as_str());
    let ghost all = mount_views(list@);
    let mut i: usize = 0;
    assert(all.skip(0) =~= all);
    while i < list.len() && depth(list[i].path.as_str()) <= d
        invariant
            i <= list@.len(),
            all == mount_views(list@),
            list@ == old(list)@,
            shallow(all, d as int) == i + shallow(all.skip(i as int), d as int),
        decreases list@.len() - i,
    {
        assert(all.skip(i as int)[0] == (list@[i as int].path@, list@[i as int].flags));
        assert(all.skip(i as int).skip(1) =~= all.skip(i + 1));
        i += 1;
    }
    proof {
        if i < list@.len() {
            assert(all.skip(i as int)[0] == (list@[i as int].path@, list@[i as int].flags));
        }
        assert(shallow(all, d as int) == i);
    }
    list.insert(i, m);
    assert(mount_views(list@) =~= all.insert(i as int, (m.path@, m.flags)));
}

/// The mounts at or below `top`, by the text of the mount table, parents
/// before children.
pub fn mounts_under(info: &str, top: &str) -> (r: Vec<MountPoint>)
    ensures
        mount_views(r@) == by_depth(mounts_in(text::lines_of(info@), top@)),
        forall|i: int|
            0 <= i < r@.len() ==> (#[trigger] r@[i]).path@ == by_depth(
                mounts_in(text::lines_of(info@), top@),
            )[i].0 && r@[i].flags == by_depth(mounts_in(text::lines_of(info@), top@))[i].1,
        r@.len() == mounts_in(text::lines_of(info@), top@).len(),
{
    let v: Vec<String> = lines(info);
    let ghost all = text::views(v@);
    let mut out: Vec<MountPoint> = Vec::new();
    let mut i: usize = 0;
    assert(all.take(0) =~= Seq::<Seq<char>>::empty());
    assert(mount_views(out@) =~= Seq::<(Seq<char>, MountFlags)>::empty());
    while i < v.len()
        invariant
            i <= v@.len(),
            all == text::views(v@),
            mount_views(out@) == by_depth(mounts_in(all.take(i as int), top@)),
        decreases v@.len() - i,
    {
        let ghost before = mounts_in(all.take(i as int), top@);
        assert(all.take(i + 1).drop_last() =~= all.take(i as int));
        assert(all.take(i + 1).last() == v@[i as int]@);
        let f: Vec<String> = fields(v[i].as_str(), ' ');
        let ghost fv = text::views(f@);
        assert(fv.len() == f@.len());
        if f.len() >= 6 {
            assert(fv[4] == f@[4]@ && fv[5] == f@[5]@);
            let path: String = unescape_mountinfo(f[4].as_str());
            let flags: MountFlags = parse_mount_opts(f[5].as_str());
            if is_under(path.as_str(), top) {
                let m: MountPoint = MountPoint { path, flags };
                proof {
                    let next = mounts_in(all.take(i + 1), top@);
                    assert(next == before.push((m.path@, m.flags)));
                    assert(next.drop_last() =~= before);
                }
                insert_by_depth(&mut out, m);
            }
        }
        i += 1;
    }
    assert(all.take(i as int) =~= all);
    proof {
        law_parents_come_first(mounts_in(text::lines_of(info@), top@));
        assert(mount_views(out@).len() == out@.len());
        assert forall|k: int| 0 <= k < out@.len() implies mount_views(out@)[k] == (
            (#[trigger] out@[k]).path@,
            out@[k].flags,
        ) by {}
    }
    out
}

/// What failing to remount `path` read-only means: below `top` that is
/// tolerable, but `top` itself would stay writable.
pub fn remount_failed(path: &str, top: &str, why: &str) -> (r: Result<(), String>)
    ensures
        if steps_of(path@) == steps_of(top@) {
            r matches Err(m) && m@ == "remount "@ + top@ + " read-only: "@ + why@
        } else {
            r is Ok
        },
{
    if !same_path(path, top) {
        return Ok(());
    }
    let mut m: String = copied("remount ");
    m.append(top);
    m.append(" read-only: ");
    m.append(why);
    Err(m)
}

} // verus!
