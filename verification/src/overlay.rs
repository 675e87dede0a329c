//! What a layer over a base image shows, and that a diff tells exactly how
//! that differs from the base image.

use vstd::prelude::*;

use crate::diff;
use crate::diff::{BaseEntry, FileKind, FileMeta, LayerEntry};
use crate::text;
use crate::types::DiffKind;

verus! {

// --- paths -------------------------------------------------------------------

/// A file name as paths show it.
pub open spec fn shown_name(name: Seq<u8>) -> Seq<char> {
    text::lossy_utf8(name)
}

/// A name that is one step of a path.
pub open spec fn plain(name: Seq<u8>) -> bool {
    shown_name(name).len() > 0 && !shown_name(name).contains('/')
}

/// `p` is `path`, or lies below it.
pub open spec fn within(p: Seq<char>, path: Seq<char>) -> bool {
    &&& path.len() <= p.len()
    &&& p.take(path.len() as int) == path
    &&& path.len() < p.len() ==> p[path.len() as int] == '/'
}

/// What lies within an entry of a directory lies below the directory.
proof fn lemma_within_entry(p: Seq<char>, dir: Seq<char>, name: Seq<char>)
    requires
        within(p, diff::below(dir, name)),
        name.len() > 0,
        dir.len() > 0,
    ensures
        within(p, dir),
        p != dir,
{
    reveal_strlit("/");
    let q = diff::below(dir, name);
    assert(q.take(dir.len() as int) =~= dir);
    assert(p.take(dir.len() as int) =~= p.take(q.len() as int).take(dir.len() as int));
    assert(p[dir.len() as int] == p.take(q.len() as int)[dir.len() as int]);
}

/// Nothing lies within two entries of a directory.
proof fn lemma_entries_are_apart(p: Seq<char>, dir: Seq<char>, a: Seq<char>, b: Seq<char>)
    requires
        within(p, diff::below(dir, a)),
        within(p, diff::below(dir, b)),
        !a.contains('/'),
        !b.contains('/'),
    ensures
        a == b,
{
    reveal_strlit("/");
    let k = if dir.len() == 0 {
        0
    } else {
        dir.len() as int + 1
    };
    let x = diff::below(dir, a);
    let y = diff::below(dir, b);
    assert(x.skip(k) =~= a);
    assert(y.skip(k) =~= b);
    assert forall|i: int| 0 <= i < a.len() implies p[k + i] == a[i] by {
        assert(p.take(x.len() as int)[k + i] == x.skip(k)[i]);
    }
    assert forall|i: int| 0 <= i < b.len() implies p[k + i] == b[i] by {
        assert(p.take(y.len() as int)[k + i] == y.skip(k)[i]);
    }
    if a.len() < b.len() {
        assert(b[a.len() as int] == '/');
        assert(b.contains('/'));
    } else if b.len() < a.len() {
        assert(a[b.len() as int] == '/');
        assert(a.contains('/'));
    }
    assert(a =~= b);
}

// --- lists of changes --------------------------------------------------------

/// One of the changes is at `p`.
pub open spec fn mentions(c: Seq<diff::Change>, p: Seq<char>) -> bool {
    exists|i: int| 0 <= i < c.len() && (#[trigger] c[i]).path == p
}

/// One of the changes is of that kind and at `p`.
pub open spec fn reports(c: Seq<diff::Change>, kind: DiffKind, p: Seq<char>) -> bool {
    exists|i: int| 0 <= i < c.len() && (#[trigger] c[i]).path == p && c[i].kind == kind
}

/// No path comes twice.
pub open spec fn distinct(c: Seq<diff::Change>) -> bool {
    forall|i: int, j: int|
        0 <= i < j < c.len() ==> (#[trigger] c[i]).path != (#[trigger] c[j]).path
}

/// The changes tell how `now` differs from `was`: no path comes twice, every
/// path that is in one of the two only is reported, added and deleted paths are
/// just those, and modified ones are in both.
pub open spec fn tells(
    c: Seq<diff::Change>,
    was: spec_fn(Seq<char>) -> bool,
    now: spec_fn(Seq<char>) -> bool,
) -> bool {
    &&& distinct(c)
    &&& forall|i: int|
        0 <= i < c.len() ==> match (#[trigger] c[i]).kind {
            DiffKind::Added => !was(c[i].path) && now(c[i].path),
            DiffKind::Modified => was(c[i].path) && now(c[i].path),
            DiffKind::Deleted => was(c[i].path) && !now(c[i].path),
        }
    &&& forall|p: Seq<char>| was(p) != now(p) ==> #[trigger] mentions(c, p)
}

/// Two lists that tell of different places tell of both.
proof fn lemma_tells_both(
    c: Seq<diff::Change>,
    was: spec_fn(Seq<char>) -> bool,
    now: spec_fn(Seq<char>) -> bool,
    d: Seq<diff::Change>,
    was2: spec_fn(Seq<char>) -> bool,
    now2: spec_fn(Seq<char>) -> bool,
    both_was: spec_fn(Seq<char>) -> bool,
    both_now: spec_fn(Seq<char>) -> bool,
)
    requires
        tells(c, was, now),
        tells(d, was2, now2),
        forall|p: Seq<char>| !((#[trigger] was(p) || now(p)) && (was2(p) || now2(p))),
        forall|p: Seq<char>| #[trigger] both_was(p) == (was(p) || was2(p)),
        forall|p: Seq<char>| #[trigger] both_now(p) == (now(p) || now2(p)),
    ensures
        tells(c + d, both_was, both_now),
{
    let n = c.len() as int;
    let all = c + d;
    assert forall|i: int| 0 <= i < all.len() implies match (#[trigger] all[i]).kind {
        DiffKind::Added => !both_was(all[i].path) && both_now(all[i].path),
        DiffKind::Modified => both_was(all[i].path) && both_now(all[i].path),
        DiffKind::Deleted => both_was(all[i].path) && !both_now(all[i].path),
    } by {
        if i < n {
            assert(all[i] == c[i]);
        } else {
            assert(all[i] == d[i - n]);
        }
        assert(!((was(all[i].path) || now(all[i].path)) && (was2(all[i].path) || now2(
            all[i].path,
        ))));
    }
    assert forall|i: int, j: int| 0 <= i < j < all.len() implies (#[trigger] all[i]).path != (
    #[trigger] all[j]).path by {
        let p = all[i].path;
        assert(!((was(p) || now(p)) && (was2(p) || now2(p))));
        if j < n {
            assert(all[i] == c[i] && all[j] == c[j]);
        } else if i >= n {
            assert(all[i] == d[i - n] && all[j] == d[j - n]);
        } else {
            assert(all[i] == c[i] && all[j] == d[j - n]);
        }
    }
    assert forall|p: Seq<char>| both_was(p) != both_now(p) implies #[trigger] mentions(all, p) by {
        if was(p) != now(p) {
            assert(mentions(c, p));
            let i = choose|i: int| 0 <= i < c.len() && (#[trigger] c[i]).path == p;
            assert(all[i].path == p);
        } else {
            assert(mentions(d, p));
            let i = choose|i: int| 0 <= i < d.len() && (#[trigger] d[i]).path == p;
            assert(all[n + i].path == p);
        }
    }
}

/// Nothing but deletions, each of another path, tells that all of it is gone.
proof fn lemma_all_gone(c: Seq<diff::Change>)
    requires
        distinct(c),
        forall|i: int| 0 <= i < c.len() ==> (#[trigger] c[i]).kind == DiffKind::Deleted,
    ensures
        tells(c, |p: Seq<char>| mentions(c, p), |p: Seq<char>| false),
{
}

proof fn lemma_mentions_concat(c: Seq<diff::Change>, d: Seq<diff::Change>, p: Seq<char>)
    ensures
        mentions(c + d, p) == (mentions(c, p) || mentions(d, p)),
{
    let n = c.len() as int;
    let all = c + d;
    if mentions(c, p) {
        let i = choose|i: int| 0 <= i < c.len() && (#[trigger] c[i]).path == p;
        assert(all[i].path == p);
    }
    if mentions(d, p) {
        let i = choose|i: int| 0 <= i < d.len() && (#[trigger] d[i]).path == p;
        assert(all[n + i].path == p);
    }
    if mentions(all, p) {
        let i = choose|i: int| 0 <= i < all.len() && (#[trigger] all[i]).path == p;
        if i < n {
            assert(c[i].path == p);
        } else {
            assert(d[i - n].path == p);
        }
    }
}

proof fn lemma_distinct_concat(c: Seq<diff::Change>, d: Seq<diff::Change>)
    requires
        distinct(c),
        distinct(d),
        forall|p: Seq<char>| !(#[trigger] mentions(c, p) && mentions(d, p)),
    ensures
        distinct(c + d),
{
    let n = c.len() as int;
    let all = c + d;
    assert forall|i: int, j: int| 0 <= i < j < all.len() implies (#[trigger] all[i]).path != (
    #[trigger] all[j]).path by {
        if j < n {
            assert(all[i] == c[i] && all[j] == c[j]);
        } else if i >= n {
            assert(all[i] == d[i - n] && all[j] == d[j - n]);
        } else {
            assert(all[i] == c[i] && all[j] == d[j - n]);
            assert(mentions(c, c[i].path));
            if c[i].path == d[j - n].path {
                assert(mentions(d, c[i].path));
            }
        }
    }
}

// --- the base image ----------------------------------------------------------

/// A base image in which every name is one step of a path, and names that look
/// alike in a directory are none.
pub open spec fn proper_base(s: Seq<BaseEntry>) -> bool
    decreases s,
{
    if s.len() == 0 {
        true
    } else {
        let e = s.last();
        &&& proper_base(s.drop_last())
        &&& plain(e.name@)
        &&& forall|k: int|
            0 <= k < s.len() - 1 ==> shown_name((#[trigger] s[k]).name@) != shown_name(e.name@)
        &&& proper_base(e.children@)
    }
}

/// The base image has something at `p`, a path of the directory `dir` and all
/// below it.
pub open spec fn base_has(b: Seq<BaseEntry>, dir: Seq<char>, p: Seq<char>) -> bool {
    mentions(diff::deletions_in(b, dir), p)
}

/// The entry called `name`.
pub open spec fn entry_called(b: Seq<BaseEntry>, name: Seq<u8>) -> Option<BaseEntry>
    decreases b.len(),
{
    if b.len() == 0 {
        None
    } else if b.last().name@ == name {
        Some(b.last())
    } else {
        entry_called(b.drop_last(), name)
    }
}

/// `p` lies within entry number `k` of the base's directory `dir`.
pub open spec fn in_base_entry(b: Seq<BaseEntry>, dir: Seq<char>, p: Seq<char>, k: int) -> bool {
    0 <= k < b.len() && mentions(
        diff::deletions(b[k], diff::below(dir, shown_name(b[k].name@))),
        p,
    )
}

proof fn lemma_proper_entry(b: Seq<BaseEntry>, k: int)
    requires
        proper_base(b),
        0 <= k < b.len(),
    ensures
        plain(b[k].name@),
        proper_base(b[k].children@),
        forall|j: int|
            0 <= j < b.len() && j != k ==> shown_name((#[trigger] b[j]).name@) != shown_name(
                b[k].name@,
            ),
    decreases b.len(),
{
    let front = b.drop_last();
    if k < b.len() - 1 {
        lemma_proper_entry(front, k);
        assert(front[k] == b[k]);
        assert forall|j: int| 0 <= j < b.len() && j != k implies shown_name((#[trigger] b[j]).name@)
            != shown_name(b[k].name@) by {
            if j < b.len() - 1 {
                assert(front[j] == b[j]);
            }
        }
    }
}

proof fn lemma_entry_called(b: Seq<BaseEntry>, name: Seq<u8>)
    ensures
        match entry_called(b, name) {
            Some(x) => exists|k: int| 0 <= k < b.len() && #[trigger] b[k] == x && x.name@ == name,
            None => forall|k: int| 0 <= k < b.len() ==> (#[trigger] b[k]).name@ != name,
        },
    decreases b.len(),
{
    if b.len() > 0 {
        let front = b.drop_last();
        lemma_entry_called(front, name);
        if b.last().name@ == name {
            assert(b[b.len() - 1] == b.last());
        } else {
            match entry_called(front, name) {
                Some(x) => {
                    let k = choose|k: int|
                        0 <= k < front.len() && #[trigger] front[k] == x && x.name@ == name;
                    assert(b[k] == x);
                },
                None => {
                    assert forall|k: int| 0 <= k < b.len() implies (#[trigger] b[k]).name@
                        != name by {
                        if k < front.len() {
                            assert(front[k] == b[k]);
                        }
                    }
                },
            }
        }
    }
}

proof fn lemma_entry_is_called(b: Seq<BaseEntry>, k: int)
    requires
        proper_base(b),
        0 <= k < b.len(),
    ensures
        entry_called(b, b[k].name@) == Some(b[k]),
{
    lemma_entry_called(b, b[k].name@);
    lemma_proper_entry(b, k);
    match entry_called(b, b[k].name@) {
        Some(x) => {
            let j = choose|j: int|
                0 <= j < b.len() && #[trigger] b[j] == x && x.name@ == b[k].name@;
            assert(j == k);
        },
        None => {},
    }
}

/// Everything that is lost with a base entry lies within it, no path twice.
proof fn lemma_loss(e: BaseEntry, path: Seq<char>)
    requires
        path.len() > 0,
        proper_base(e.children@),
    ensures
        distinct(diff::deletions(e, path)),
        forall|p: Seq<char>| #[trigger] mentions(diff::deletions(e, path), p) ==> within(p, path),
        forall|p: Seq<char>| #[trigger]
            mentions(diff::deletions(e, path), p) == (p == path || (e.meta.kind == FileKind::Dir
                && mentions(diff::deletions_in(e.children@, path), p))),
    decreases e,
{
    let own = seq![diff::change_at(path, DiffKind::Deleted, e.meta)];
    assert forall|p: Seq<char>| #[trigger] mentions(own, p) == (p == path) by {
        if p == path {
            assert(own[0].path == p);
        }
    }
    assert(path.take(path.len() as int) =~= path);
    if e.meta.kind == FileKind::Dir {
        let inner = diff::deletions_in(e.children@, path);
        lemma_loss_in(e.children@, path);
        assert forall|p: Seq<char>| !(#[trigger] mentions(own, p) && mentions(inner, p)) by {
            if mentions(inner, p) {
                lemma_below_dir_base(e.children@, path, p);
            }
        }
        lemma_distinct_concat(own, inner);
        assert forall|p: Seq<char>| #[trigger] mentions(diff::deletions(e, path), p) == (p == path
            || mentions(inner, p)) by {
            lemma_mentions_concat(own, inner, p);
        }
        assert forall|p: Seq<char>| #[trigger] mentions(diff::deletions(e, path), p) implies within(
            p,
            path,
        ) by {
            if p != path {
                lemma_below_dir_base(e.children@, path, p);
            }
        }
    } else {
        assert(diff::deletions(e, path) == own);
    }
}

/// What a base directory has lies below the directory.
proof fn lemma_below_dir_base(s: Seq<BaseEntry>, dir: Seq<char>, p: Seq<char>)
    requires
        proper_base(s),
        dir.len() > 0,
        exists|k: int| in_base_entry(s, dir, p, k),
        forall|k: int| #[trigger]
            in_base_entry(s, dir, p, k) ==> within(p, diff::below(dir, shown_name(s[k].name@))),
    ensures
        within(p, dir),
        p != dir,
{
    let k = choose|k: int| in_base_entry(s, dir, p, k);
    lemma_proper_entry(s, k);
    lemma_within_entry(p, dir, shown_name(s[k].name@));
}

/// Everything that is lost with a base directory's entries lies within one of
/// them, no path twice.
proof fn lemma_loss_in(s: Seq<BaseEntry>, dir: Seq<char>)
    requires
        proper_base(s),
    ensures
        distinct(diff::deletions_in(s, dir)),
        forall|p: Seq<char>| #[trigger]
            mentions(diff::deletions_in(s, dir), p) <==> exists|k: int| in_base_entry(s, dir, p, k),
        forall|p: Seq<char>, k: int| #[trigger]
            in_base_entry(s, dir, p, k) ==> within(p, diff::below(dir, shown_name(s[k].name@))),
    decreases s,
{
    if s.len() > 0 {
        let front = s.drop_last();
        let e = s.last();
        let n = s.len() - 1;
        let path = diff::below(dir, shown_name(e.name@));
        let rest = diff::deletions_in(front, dir);
        let own = diff::deletions(e, path);
        lemma_loss_in(front, dir);
        lemma_loss(e, path);
        assert forall|p: Seq<char>, k: int| #[trigger] in_base_entry(s, dir, p, k) implies within(
            p,
            diff::below(dir, shown_name(s[k].name@)),
        ) by {
            if k < n {
                assert(front[k] == s[k]);
                assert(in_base_entry(front, dir, p, k));
            }
        }
        assert forall|p: Seq<char>| !(#[trigger] mentions(rest, p) && mentions(own, p)) by {
            if mentions(rest, p) && mentions(own, p) {
                let k = choose|k: int| in_base_entry(front, dir, p, k);
                assert(front[k] == s[k]);
                lemma_proper_entry(s, k);
                lemma_entries_are_apart(p, dir, shown_name(s[k].name@), shown_name(e.name@));
            }
        }
        lemma_distinct_concat(rest, own);
        assert forall|p: Seq<char>| #[trigger]
            mentions(diff::deletions_in(s, dir), p) <==> exists|k: int| in_base_entry(s, dir, p, k) by {
            lemma_mentions_concat(rest, own, p);
            if mentions(rest, p) {
                let k = choose|k: int| in_base_entry(front, dir, p, k);
                assert(front[k] == s[k]);
                assert(in_base_entry(s, dir, p, k));
            }
            if mentions(own, p) {
                assert(in_base_entry(s, dir, p, n));
            }
            if exists|k: int| in_base_entry(s, dir, p, k) {
                let k = choose|k: int| in_base_entry(s, dir, p, k);
                if k < n {
                    assert(front[k] == s[k]);
                    assert(in_base_entry(front, dir, p, k));
                }
            }
        }
    }
}

// --- the layer ---------------------------------------------------------------

/// What the entry `e` says of the base image is so, where `o` is what the base
/// image has at its path, and likewise for everything in it.
pub open spec fn entry_lies_over(e: LayerEntry, o: Option<BaseEntry>, replaced: bool) -> bool
    decreases e,
{
    &&& e.base == match o {
        Some(x) => Some(x.meta),
        None => None,
    }
    &&& diff::base_matters(e.meta, e.base, e.trusted_opaque, e.user_opaque, replaced) ==> e.covered@
        == o->0.children@
    &&& e.meta.kind == FileKind::Dir ==> lies_over(
        e.children@,
        inside(o),
        diff::hides_base(e.base, e.trusted_opaque, e.user_opaque, replaced),
    )
}

/// What the entries `s` of a directory say of the base image is so, where `b`
/// is what the base image's directory holds. Names are as in a proper base
/// image, and those that look alike on both sides are the same.
pub open spec fn lies_over(s: Seq<LayerEntry>, b: Seq<BaseEntry>, replaced: bool) -> bool
    decreases s,
{
    if s.len() == 0 {
        true
    } else {
        let e = s.last();
        &&& lies_over(s.drop_last(), b, replaced)
        &&& plain(e.name@)
        &&& forall|k: int|
            0 <= k < s.len() - 1 ==> shown_name((#[trigger] s[k]).name@) != shown_name(e.name@)
        &&& forall|k: int|
            0 <= k < b.len() && shown_name((#[trigger] b[k]).name@) == shown_name(e.name@)
                ==> b[k].name@ == e.name@
        &&& entry_lies_over(e, entry_called(b, e.name@), replaced)
    }
}

/// What a base entry holds, if it is a directory.
pub open spec fn inside(o: Option<BaseEntry>) -> Seq<BaseEntry> {
    match o {
        Some(x) => if x.meta.kind == FileKind::Dir {
            x.children@
        } else {
            Seq::empty()
        },
        None => Seq::empty(),
    }
}

/// The base image has something at `p`, at or below the path of `o`.
pub open spec fn entry_had(o: Option<BaseEntry>, path: Seq<char>, p: Seq<char>) -> bool {
    o matches Some(x) && mentions(diff::deletions(x, path), p)
}

/// Through the layer something shows at `p`, at or below the path of its entry
/// `e`, where the base image has `o`. A whiteout hides everything; a file shows
/// itself; a directory shows itself and what is in it and, unless it replaces
/// the base's, what the base's holds that it has no entry for.
pub open spec fn entry_shows(
    e: LayerEntry,
    o: Option<BaseEntry>,
    path: Seq<char>,
    p: Seq<char>,
    replaced: bool,
) -> bool
    decreases e,
{
    if diff::whiteout(e.meta) {
        false
    } else if e.meta.kind == FileKind::Dir {
        ||| p == path
        ||| layer_shows(
            e.children@,
            inside(o),
            path,
            p,
            diff::hides_base(e.base, e.trusted_opaque, e.user_opaque, replaced),
        )
        ||| !diff::replaces(replaced, e.trusted_opaque, e.user_opaque) && mentions(
            diff::shadowed(inside(o), e.children@, path),
            p,
        )
    } else {
        p == path
    }
}

/// One of the entries `s` of the layer's directory `dir` shows something at
/// `p`.
pub open spec fn layer_shows(
    s: Seq<LayerEntry>,
    b: Seq<BaseEntry>,
    dir: Seq<char>,
    p: Seq<char>,
    replaced: bool,
) -> bool
    decreases s,
{
    if s.len() == 0 {
        false
    } else {
        layer_shows(s.drop_last(), b, dir, p, replaced) || entry_shows(
            s.last(),
            entry_called(b, s.last().name@),
            diff::below(dir, shown_name(s.last().name@)),
            p,
            replaced,
        )
    }
}

/// The base image has something at `p`, in an entry that the layer has too.
pub open spec fn base_had(
    s: Seq<LayerEntry>,
    b: Seq<BaseEntry>,
    dir: Seq<char>,
    p: Seq<char>,
) -> bool
    decreases s.len(),
{
    if s.len() == 0 {
        false
    } else {
        base_had(s.drop_last(), b, dir, p) || entry_had(
            entry_called(b, s.last().name@),
            diff::below(dir, shown_name(s.last().name@)),
            p,
        )
    }
}

/// `p` lies within one of the entries `s` of directory `dir`.
spec fn in_layer_entry(s: Seq<LayerEntry>, dir: Seq<char>, p: Seq<char>) -> bool {
    exists|k: int|
        0 <= k < s.len() && within(p, diff::below(dir, shown_name((#[trigger] s[k]).name@)))
}

proof fn lemma_proper_layer_entry(s: Seq<LayerEntry>, b: Seq<BaseEntry>, replaced: bool, k: int)
    requires
        lies_over(s, b, replaced),
        0 <= k < s.len(),
    ensures
        plain(s[k].name@),
        forall|j: int|
            0 <= j < b.len() && shown_name((#[trigger] b[j]).name@) == shown_name(s[k].name@)
                ==> b[j].name@ == s[k].name@,
    decreases s.len(),
{
    if k < s.len() - 1 {
        lemma_proper_layer_entry(s.drop_last(), b, replaced, k);
        assert(s.drop_last()[k] == s[k]);
    }
}

proof fn lemma_base_had(s: Seq<LayerEntry>, b: Seq<BaseEntry>, dir: Seq<char>, p: Seq<char>)
    requires
        proper_base(b),
    ensures
        base_had(s, b, dir, p) <==> exists|k: int| #[trigger]
            in_base_entry(b, dir, p, k) && diff::has_name(s, b[k].name@),
    decreases s.len(),
{
    if s.len() > 0 {
        let front = s.drop_last();
        let e = s.last();
        lemma_base_had(front, b, dir, p);
        lemma_entry_called(b, e.name@);
        if base_had(front, b, dir, p) {
            let k = choose|k: int| #[trigger]
                in_base_entry(b, dir, p, k) && diff::has_name(front, b[k].name@);
            let i = choose|i: int|
                0 <= i < front.len() && (#[trigger] front[i]).name@ == b[k].name@;
            assert(s[i].name@ == b[k].name@);
        }
        if base_had(s, b, dir, p) && !base_had(front, b, dir, p) {
            let x = entry_called(b, e.name@)->0;
            let k = choose|k: int| 0 <= k < b.len() && #[trigger] b[k] == x && x.name@ == e.name@;
            assert(s[s.len() - 1].name@ == b[k].name@);
            assert(in_base_entry(b, dir, p, k));
        }
        if exists|k: int| #[trigger] in_base_entry(b, dir, p, k) && diff::has_name(s, b[k].name@) {
            let k = choose|k: int| #[trigger]
                in_base_entry(b, dir, p, k) && diff::has_name(s, b[k].name@);
            let i = choose|i: int| 0 <= i < s.len() && (#[trigger] s[i]).name@ == b[k].name@;
            if i < front.len() {
                assert(front[i].name@ == b[k].name@);
            } else {
                lemma_entry_is_called(b, k);
            }
        }
    }
}

/// What a directory that replaces the base's takes away lies within the base
/// entries that it has no entry for, no path twice.
proof fn lemma_shadowed(b: Seq<BaseEntry>, s: Seq<LayerEntry>, dir: Seq<char>)
    requires
        proper_base(b),
    ensures
        distinct(diff::shadowed(b, s, dir)),
        forall|p: Seq<char>| #[trigger]
            mentions(diff::shadowed(b, s, dir), p) <==> exists|k: int| #[trigger]
                in_base_entry(b, dir, p, k) && !diff::has_name(s, b[k].name@),
        forall|i: int|
            0 <= i < diff::shadowed(b, s, dir).len() ==> (#[trigger] diff::shadowed(b, s, dir)[i]).kind
                == DiffKind::Deleted,
    decreases b.len(),
{
    if b.len() > 0 {
        let front = b.drop_last();
        let e = b.last();
        let n = b.len() - 1;
        let path = diff::below(dir, shown_name(e.name@));
        let rest = diff::shadowed(front, s, dir);
        let own = diff::deletions(e, path);
        let all = diff::shadowed(b, s, dir);
        lemma_shadowed(front, s, dir);
        lemma_loss_in(b, dir);
        lemma_proper_entry(b, n);
        lemma_loss(e, path);
        diff::lemma_deletions_delete(e, path);
        let kept = diff::has_name(s, e.name@);
        if !kept {
            assert forall|p: Seq<char>| !(#[trigger] mentions(rest, p) && mentions(own, p)) by {
                if mentions(rest, p) && mentions(own, p) {
                    let k = choose|k: int| #[trigger]
                        in_base_entry(front, dir, p, k) && !diff::has_name(s, front[k].name@);
                    assert(front[k] == b[k]);
                    assert(in_base_entry(b, dir, p, k));
                    lemma_proper_entry(b, k);
                    lemma_entries_are_apart(p, dir, shown_name(b[k].name@), shown_name(e.name@));
                }
            }
            lemma_distinct_concat(rest, own);
            assert forall|i: int| 0 <= i < all.len() implies (#[trigger] all[i]).kind
                == DiffKind::Deleted by {
                if i < rest.len() {
                    assert(all[i] == rest[i]);
                } else {
                    assert(all[i] == own[i - rest.len()]);
                }
            }
        }
        assert forall|p: Seq<char>| #[trigger] mentions(all, p) <==> exists|k: int| #[trigger]
            in_base_entry(b, dir, p, k) && !diff::has_name(s, b[k].name@) by {
            lemma_mentions_concat(rest, own, p);
            if mentions(rest, p) {
                let k = choose|k: int| #[trigger]
                    in_base_entry(front, dir, p, k) && !diff::has_name(s, front[k].name@);
                assert(front[k] == b[k]);
                assert(in_base_entry(b, dir, p, k));
            }
            if !kept && mentions(own, p) {
                assert(in_base_entry(b, dir, p, n));
            }
            if exists|k: int| #[trigger]
                in_base_entry(b, dir, p, k) && !diff::has_name(s, b[k].name@) {
                let k = choose|k: int| #[trigger]
                    in_base_entry(b, dir, p, k) && !diff::has_name(s, b[k].name@);
                if k < n {
                    assert(front[k] == b[k]);
                    assert(in_base_entry(front, dir, p, k));
                }
            }
        }
    }
}

/// What the base image has in a directory is in an entry that the layer has
/// too, or in one that it does not; never both, and what the layer shows in its
/// entries is apart from the latter.
proof fn lemma_base_splits(
    s: Seq<LayerEntry>,
    b: Seq<BaseEntry>,
    dir: Seq<char>,
    replaced: bool,
    p: Seq<char>,
)
    requires
        proper_base(b),
        lies_over(s, b, replaced),
    ensures
        base_has(b, dir, p) == (base_had(s, b, dir, p) || mentions(diff::shadowed(b, s, dir), p)),
        mentions(diff::shadowed(b, s, dir), p) ==> !in_layer_entry(s, dir, p),
{
    lemma_loss_in(b, dir);
    lemma_base_had(s, b, dir, p);
    lemma_shadowed(b, s, dir);
    if base_has(b, dir, p) {
        let k = choose|k: int| in_base_entry(b, dir, p, k);
        assert(diff::has_name(s, b[k].name@) || !diff::has_name(s, b[k].name@));
    }
    if mentions(diff::shadowed(b, s, dir), p) && in_layer_entry(s, dir, p) {
        let k = choose|k: int| #[trigger]
            in_base_entry(b, dir, p, k) && !diff::has_name(s, b[k].name@);
        let i = choose|i: int|
            0 <= i < s.len() && within(p, diff::below(dir, shown_name((#[trigger] s[i]).name@)));
        lemma_proper_entry(b, k);
        lemma_proper_layer_entry(s, b, replaced, i);
        lemma_entries_are_apart(p, dir, shown_name(b[k].name@), shown_name(s[i].name@));
        assert(s[i].name@ == b[k].name@);
    }
}

/// What lies within an entry of the layer's directory lies below it.
proof fn lemma_below_dir_layer(
    s: Seq<LayerEntry>,
    b: Seq<BaseEntry>,
    replaced: bool,
    dir: Seq<char>,
    p: Seq<char>,
)
    requires
        lies_over(s, b, replaced),
        in_layer_entry(s, dir, p),
        dir.len() > 0,
    ensures
        within(p, dir),
        p != dir,
{
    let k = choose|k: int|
        0 <= k < s.len() && within(p, diff::below(dir, shown_name((#[trigger] s[k]).name@)));
    lemma_proper_layer_entry(s, b, replaced, k);
    lemma_within_entry(p, dir, shown_name(s[k].name@));
}

/// The changes of an entry tell how what shows at and below its path differs
/// from what the base image has there.
proof fn lemma_entry_tells(e: LayerEntry, o: Option<BaseEntry>, path: Seq<char>, replaced: bool)
    requires
        path.len() > 0,
        entry_lies_over(e, o, replaced),
        proper_base(inside(o)),
        o matches Some(x) ==> proper_base(x.children@),
    ensures
        tells(
            diff::changes(e, path, replaced),
            |p: Seq<char>| entry_had(o, path, p),
            |p: Seq<char>| entry_shows(e, o, path, p, replaced),
        ),
        forall|p: Seq<char>| #[trigger] entry_had(o, path, p) ==> within(p, path),
        forall|p: Seq<char>| #[trigger] entry_shows(e, o, path, p, replaced) ==> within(p, path),
    decreases e,
{
    let was = |p: Seq<char>| entry_had(o, path, p);
    let now = |p: Seq<char>| entry_shows(e, o, path, p, replaced);
    let here = |p: Seq<char>| p == path;
    let nowhere = |p: Seq<char>| false;
    let bc = inside(o);
    let none = Seq::<diff::Change>::empty();
    assert(path.take(path.len() as int) =~= path);
    if let Some(x) = o {
        lemma_loss(x, path);
        diff::lemma_deletions_delete_in(x.children@, path);
    }
    lemma_loss_in(bc, path);
    assert forall|p: Seq<char>| #[trigger] base_has(bc, path, p) implies within(p, path) && p
        != path by {
        lemma_below_dir_base(bc, path, p);
    }
    // What the base image has: the entry itself, and what it holds.
    let held = |p: Seq<char>| base_has(bc, path, p);
    assert forall|p: Seq<char>| #[trigger] was(p) == (o is Some && here(p) || held(p)) by {
        if o is Some && o->0.meta.kind != FileKind::Dir {
            assert(diff::deletions_in(Seq::<BaseEntry>::empty(), path) =~= none);
        }
        if o is None {
            assert(diff::deletions_in(Seq::<BaseEntry>::empty(), path) =~= none);
        }
    }
    if diff::whiteout(e.meta) || e.meta.kind != FileKind::Dir {
        let gone = diff::deletions_in(bc, path);
        assert(bc.len() == 0 ==> gone =~= none);
        if o is Some {
            diff::lemma_deletions_delete_in(bc, path);
        } else {
            assert(gone =~= none);
        }
        lemma_all_gone(gone);
        assert forall|p: Seq<char>| !(#[trigger] here(p) && mentions(gone, p)) by {
            assert(base_has(bc, path, p) ==> p != path);
        }
        if diff::whiteout(e.meta) {
            if o is Some {
                let own = seq![diff::change_at(path, DiffKind::Deleted, e.base->0)];
                lemma_one(own, here, nowhere);
                lemma_tells_both(
                    own,
                    here,
                    nowhere,
                    gone,
                    |p: Seq<char>| mentions(gone, p),
                    |p: Seq<char>| false,
                    was,
                    now,
                );
                assert(diff::changes(e, path, replaced) =~= own + gone);
            } else {
                assert(diff::changes(e, path, replaced) =~= none);
                assert(tells(none, was, now));
            }
        } else if o is Some {
            let own = seq![diff::change_at(path, DiffKind::Modified, e.meta)];
            lemma_one(own, here, here);
            lemma_tells_both(
                own,
                here,
                here,
                gone,
                |p: Seq<char>| mentions(gone, p),
                |p: Seq<char>| false,
                was,
                now,
            );
            assert(diff::changes(e, path, replaced) =~= own + gone);
        } else {
            let own = seq![diff::change_at(path, DiffKind::Added, e.meta)];
            lemma_one(own, nowhere, here);
            assert(forall|p: Seq<char>| #[trigger] was(p) == nowhere(p));
            assert(forall|p: Seq<char>| #[trigger] now(p) == here(p));
            assert(diff::changes(e, path, replaced) =~= own);
            lemma_tells_same(own, nowhere, here, was, now);
        }
    } else {
        let hides = diff::hides_base(e.base, e.trusted_opaque, e.user_opaque, replaced);
        let through = !diff::replaces(replaced, e.trusted_opaque, e.user_opaque);
        let inner = diff::changes_in(e.children@, path, hides);
        let was_in = |p: Seq<char>| base_had(e.children@, bc, path, p);
        let now_in = |p: Seq<char>| layer_shows(e.children@, bc, path, p, hides);
        lemma_entries_tell(e.children@, bc, path, hides);
        let rest = diff::shadowed(bc, e.children@, path);
        lemma_shadowed(bc, e.children@, path);
        let apart = |p: Seq<char>| mentions(rest, p);
        assert forall|p: Seq<char>| #[trigger] was_in(p) || now_in(p) implies within(p, path) && p
            != path by {
            lemma_below_dir_layer(e.children@, bc, hides, path, p);
        }
        assert forall|p: Seq<char>| #[trigger] now_in(p) implies within(p, path) && p != path by {
            assert(layer_shows(e.children@, bc, path, p, hides));
            lemma_below_dir_layer(e.children@, bc, hides, path, p);
        }
        assert forall|p: Seq<char>| #[trigger] held(p) == (was_in(p) || apart(p)) && !(apart(p) && (
        was_in(p) || now_in(p))) by {
            lemma_base_splits(e.children@, bc, path, hides, p);
        }
        // What the base image has and the layer has no entry for: gone, or
        // shown as it is.
        let lost = if through {
            none
        } else {
            rest
        };
        let apart_now = |p: Seq<char>| through && apart(p);
        if through {
            assert(tells(none, apart, apart_now));
        } else {
            lemma_all_gone(rest);
            lemma_tells_same(
                rest,
                |p: Seq<char>| mentions(rest, p),
                |p: Seq<char>| false,
                apart,
                apart_now,
            );
        }
        assert forall|p: Seq<char>| #[trigger] apart(p) implies held(p) by {
            assert(held(p) == (was_in(p) || apart(p)));
        }
        let below_was = |p: Seq<char>| was_in(p) || apart(p);
        let below_now = |p: Seq<char>| now_in(p) || apart_now(p);
        assert forall|p: Seq<char>| !((#[trigger] apart(p) || apart_now(p)) && (was_in(p)
            || now_in(p))) by {
            assert(held(p) == (was_in(p) || apart(p)));
        }
        lemma_tells_both(lost, apart, apart_now, inner, was_in, now_in, below_was, below_now);
        // The directory itself.
        let own = match o {
            None => seq![diff::change_at(path, DiffKind::Added, e.meta)],
            Some(x) => if x.meta.kind != FileKind::Dir {
                seq![diff::change_at(path, DiffKind::Modified, e.meta)]
            } else {
                none
            },
        };
        let own_was = |p: Seq<char>| o is Some && here(p);
        match o {
            None => {
                lemma_one(own, nowhere, here);
                lemma_tells_same(own, nowhere, here, own_was, here);
            },
            Some(x) => {
                if x.meta.kind != FileKind::Dir {
                    lemma_one(own, here, here);
                    lemma_tells_same(own, here, here, own_was, here);
                } else {
                    assert(tells(own, own_was, here));
                }
            },
        }
        assert forall|p: Seq<char>| !((#[trigger] own_was(p) || here(p)) && (below_was(p)
            || below_now(p))) by {
            if below_was(p) || below_now(p) {
                assert(was_in(p) || now_in(p) || apart(p));
                assert(apart(p) ==> held(p));
            }
        }
        assert forall|p: Seq<char>| #[trigger] was(p) == (own_was(p) || below_was(p)) by {
            assert(held(p) == (was_in(p) || apart(p)));
        }
        lemma_tells_both(
            own,
            own_was,
            here,
            lost + inner,
            below_was,
            below_now,
            was,
            now,
        );
        if o is Some && o->0.meta.kind == FileKind::Dir {
            assert(diff::changes(e, path, replaced) =~= own + (lost + inner));
        } else {
            assert(rest =~= none);
            assert(diff::changes(e, path, replaced) =~= own + (lost + inner));
        }
    }
    assert forall|p: Seq<char>| #[trigger] entry_had(o, path, p) implies within(p, path) by {
        assert(was(p) == (o is Some && here(p) || held(p)));
        assert(held(p) ==> base_has(bc, path, p));
    }
    assert forall|p: Seq<char>| #[trigger] entry_shows(e, o, path, p, replaced) implies within(
        p,
        path,
    ) by {
        if !diff::whiteout(e.meta) && e.meta.kind == FileKind::Dir && p != path {
            let hides = diff::hides_base(e.base, e.trusted_opaque, e.user_opaque, replaced);
            lemma_entries_tell(e.children@, bc, path, hides);
            if layer_shows(e.children@, bc, path, p, hides) {
                lemma_below_dir_layer(e.children@, bc, hides, path, p);
            } else {
                lemma_base_splits(e.children@, bc, path, hides, p);
                assert(base_has(bc, path, p));
            }
        }
    }
}

/// One change tells of its own path.
proof fn lemma_one(
    c: Seq<diff::Change>,
    was: spec_fn(Seq<char>) -> bool,
    now: spec_fn(Seq<char>) -> bool,
)
    requires
        c.len() == 1,
        forall|p: Seq<char>| #[trigger] was(p) || now(p) ==> p == c[0].path,
        forall|p: Seq<char>| #[trigger] now(p) ==> p == c[0].path,
        was(c[0].path) == (c[0].kind != DiffKind::Added),
        now(c[0].path) == (c[0].kind != DiffKind::Deleted),
    ensures
        tells(c, was, now),
{
    assert forall|p: Seq<char>| was(p) != now(p) implies #[trigger] mentions(c, p) by {
        assert(c[0].path == p);
    }
}

proof fn lemma_tells_same(
    c: Seq<diff::Change>,
    was: spec_fn(Seq<char>) -> bool,
    now: spec_fn(Seq<char>) -> bool,
    was2: spec_fn(Seq<char>) -> bool,
    now2: spec_fn(Seq<char>) -> bool,
)
    requires
        tells(c, was, now),
        forall|p: Seq<char>| #[trigger] was2(p) == was(p),
        forall|p: Seq<char>| #[trigger] now2(p) == now(p),
    ensures
        tells(c, was2, now2),
{
    assert forall|i: int| 0 <= i < c.len() implies match (#[trigger] c[i]).kind {
        DiffKind::Added => !was2(c[i].path) && now2(c[i].path),
        DiffKind::Modified => was2(c[i].path) && now2(c[i].path),
        DiffKind::Deleted => was2(c[i].path) && !now2(c[i].path),
    } by {
        assert(was2(c[i].path) == was(c[i].path) && now2(c[i].path) == now(c[i].path));
    }
    assert forall|p: Seq<char>| was2(p) != now2(p) implies #[trigger] mentions(c, p) by {
        assert(was(p) != now(p));
    }
}

/// The changes of a directory's entries tell how what they show differs from
/// what the base image has in the entries of the same names.
proof fn lemma_entries_tell(
    s: Seq<LayerEntry>,
    b: Seq<BaseEntry>,
    dir: Seq<char>,
    replaced: bool,
)
    requires
        lies_over(s, b, replaced),
        proper_base(b),
    ensures
        tells(
            diff::changes_in(s, dir, replaced),
            |p: Seq<char>| base_had(s, b, dir, p),
            |p: Seq<char>| layer_shows(s, b, dir, p, replaced),
        ),
        forall|p: Seq<char>| #[trigger] base_had(s, b, dir, p) ==> in_layer_entry(s, dir, p),
        forall|p: Seq<char>| #[trigger]
            layer_shows(s, b, dir, p, replaced) ==> in_layer_entry(s, dir, p),
    decreases s,
{
    let was = |p: Seq<char>| base_had(s, b, dir, p);
    let now = |p: Seq<char>| layer_shows(s, b, dir, p, replaced);
    if s.len() > 0 {
        let front = s.drop_last();
        let e = s.last();
        let n = s.len() - 1;
        let path = diff::below(dir, shown_name(e.name@));
        let o = entry_called(b, e.name@);
        lemma_entry_called(b, e.name@);
        if let Some(x) = o {
            let k = choose|k: int| 0 <= k < b.len() && #[trigger] b[k] == x && x.name@ == e.name@;
            lemma_proper_entry(b, k);
        }
        lemma_entries_tell(front, b, dir, replaced);
        lemma_entry_tells(e, o, path, replaced);
        let was1 = |p: Seq<char>| base_had(front, b, dir, p);
        let now1 = |p: Seq<char>| layer_shows(front, b, dir, p, replaced);
        let was2 = |p: Seq<char>| entry_had(o, path, p);
        let now2 = |p: Seq<char>| entry_shows(e, o, path, p, replaced);
        assert forall|p: Seq<char>| !((#[trigger] was1(p) || now1(p)) && (was2(p) || now2(p))) by {
            if (was1(p) || now1(p)) && (was2(p) || now2(p)) {
                assert(in_layer_entry(front, dir, p));
                let k = choose|k: int|
                    0 <= k < front.len() && within(
                        p,
                        diff::below(dir, shown_name((#[trigger] front[k]).name@)),
                    );
                assert(front[k] == s[k]);
                lemma_proper_layer_entry(s, b, replaced, k);
                lemma_entries_are_apart(p, dir, shown_name(s[k].name@), shown_name(e.name@));
            }
        }
        lemma_tells_both(
            diff::changes_in(front, dir, replaced),
            was1,
            now1,
            diff::changes(e, path, replaced),
            was2,
            now2,
            was,
            now,
        );
        assert forall|p: Seq<char>| was(p) || now(p) implies in_layer_entry(s, dir, p) by {
            if was1(p) || now1(p) {
                assert(in_layer_entry(front, dir, p));
                let k = choose|k: int|
                    0 <= k < front.len() && within(
                        p,
                        diff::below(dir, shown_name((#[trigger] front[k]).name@)),
                    );
                assert(front[k] == s[k]);
            } else {
                assert(entry_had(o, path, p) || entry_shows(e, o, path, p, replaced));
                assert(s[n] == e);
            }
        }
        assert forall|p: Seq<char>| #[trigger] base_had(s, b, dir, p) implies in_layer_entry(
            s,
            dir,
            p,
        ) by {
            assert(was(p));
        }
        assert forall|p: Seq<char>| #[trigger]
            layer_shows(s, b, dir, p, replaced) implies in_layer_entry(s, dir, p) by {
            assert(now(p));
        }
    } else {
        assert(diff::changes_in(s, dir, replaced) =~= Seq::<diff::Change>::empty());
    }
}

// --- the whole ---------------------------------------------------------------

proof fn lemma_at_path_from(s: Seq<diff::Change>, p: Seq<char>, k: int)
    requires
        0 <= k < diff::at_path(s, p).len(),
    ensures
        exists|i: int|
            0 <= i < s.len() && #[trigger] s[i] == diff::at_path(s, p)[k] && s[i].path == p,
    decreases s.len(),
{
    if s.len() > 0 {
        let front = s.drop_last();
        if k < diff::at_path(front, p).len() {
            lemma_at_path_from(front, p, k);
            let i = choose|i: int|
                0 <= i < front.len() && #[trigger] front[i] == diff::at_path(front, p)[k]
                    && front[i].path == p;
            assert(s[i] == front[i]);
        } else {
            assert(s[s.len() - 1] == s.last());
        }
    }
}

proof fn lemma_at_path_has(s: Seq<diff::Change>, i: int)
    requires
        0 <= i < s.len(),
    ensures
        diff::at_path(s, s[i].path).contains(s[i]),
    decreases s.len(),
{
    let front = s.drop_last();
    let all = diff::at_path(s, s[i].path);
    if i < s.len() - 1 {
        lemma_at_path_has(front, i);
        let k = choose|k: int|
            0 <= k < diff::at_path(front, s[i].path).len() && diff::at_path(front, s[i].path)[k]
                == front[i];
        assert(all[k] == s[i]);
    } else {
        assert(all[all.len() - 1] == s[i]);
    }
}

proof fn lemma_at_path_twice(s: Seq<diff::Change>, i: int, j: int)
    requires
        0 <= i < j < s.len(),
        s[i].path == s[j].path,
    ensures
        diff::at_path(s, s[i].path).len() >= 2,
    decreases s.len(),
{
    let front = s.drop_last();
    if j < s.len() - 1 {
        lemma_at_path_twice(front, i, j);
    } else {
        lemma_at_path_has(front, i);
        assert(diff::at_path(front, s[i].path).len() >= 1);
    }
}

proof fn lemma_at_path_once(s: Seq<diff::Change>, p: Seq<char>)
    requires
        distinct(s),
    ensures
        diff::at_path(s, p).len() <= 1,
    decreases s.len(),
{
    if s.len() > 0 {
        let front = s.drop_last();
        assert forall|i: int, j: int| 0 <= i < j < front.len() implies (#[trigger] front[i]).path
            != (#[trigger] front[j]).path by {
            assert(front[i] == s[i] && front[j] == s[j]);
        }
        lemma_at_path_once(front, p);
        if s.last().path == p && diff::at_path(front, p).len() > 0 {
            lemma_at_path_from(front, p, 0);
            let i = choose|i: int|
                0 <= i < front.len() && #[trigger] front[i] == diff::at_path(front, p)[0]
                    && front[i].path == p;
            assert(s[i].path == s[s.len() - 1].path);
        }
    }
}

/// The same changes in another order tell the same.
proof fn lemma_tells_rearranged(
    c: Seq<diff::Change>,
    v: Seq<diff::Change>,
    was: spec_fn(Seq<char>) -> bool,
    now: spec_fn(Seq<char>) -> bool,
)
    requires
        tells(c, was, now),
        diff::rearranged(c, v),
    ensures
        tells(v, was, now),
{
    assert forall|i: int, j: int| 0 <= i < j < v.len() implies (#[trigger] v[i]).path != (
    #[trigger] v[j]).path by {
        if v[i].path == v[j].path {
            lemma_at_path_twice(v, i, j);
            lemma_at_path_once(c, v[i].path);
        }
    }
    assert forall|i: int| 0 <= i < v.len() implies match (#[trigger] v[i]).kind {
        DiffKind::Added => !was(v[i].path) && now(v[i].path),
        DiffKind::Modified => was(v[i].path) && now(v[i].path),
        DiffKind::Deleted => was(v[i].path) && !now(v[i].path),
    } by {
        let p = v[i].path;
        lemma_at_path_has(v, i);
        let k = choose|k: int|
            0 <= k < diff::at_path(v, p).len() && diff::at_path(v, p)[k] == v[i];
        lemma_at_path_from(c, p, k);
        let j = choose|j: int|
            0 <= j < c.len() && #[trigger] c[j] == diff::at_path(c, p)[k] && c[j].path == p;
        assert(c[j] == v[i]);
    }
    assert forall|p: Seq<char>| was(p) != now(p) implies #[trigger] mentions(v, p) by {
        assert(mentions(c, p));
        let j = choose|j: int| 0 <= j < c.len() && (#[trigger] c[j]).path == p;
        lemma_at_path_has(c, j);
        assert(diff::at_path(v, p).len() > 0);
        lemma_at_path_from(v, p, 0);
    }
}

/// The base image has something at `p`.
pub open spec fn base_has_at(base: Seq<BaseEntry>, p: Seq<char>) -> bool {
    base_has(base, Seq::empty(), p)
}

/// Something shows at `p` where the layer lies over the base image: in one of
/// the layer's entries, or in one that only the base image has.
pub open spec fn shows_at(layer: Seq<LayerEntry>, base: Seq<BaseEntry>, p: Seq<char>) -> bool {
    layer_shows(layer, base, Seq::empty(), p, false) || mentions(
        diff::shadowed(base, layer, Seq::empty()),
        p,
    )
}

/// A diff tells exactly how what shows through the layer differs from the base
/// image.
///
/// `v` is what `diff_upper` reports. No path comes twice. A path is reported as
/// deleted just where the base image has it and it does not show any more, and
/// as added just where it shows and the base image does not have it. A path
/// that is reported as modified is in both.
pub proof fn law_diff_tells_the_difference(
    layer: Seq<LayerEntry>,
    base: Seq<BaseEntry>,
    v: Seq<diff::Change>,
)
    requires
        proper_base(base),
        lies_over(layer, base, false),
        diff::rearranged(diff::changes_in(layer, Seq::empty(), false), v),
    ensures
        distinct(v),
        forall|p: Seq<char>| #[trigger]
            reports(v, DiffKind::Deleted, p) <==> base_has_at(base, p) && !shows_at(layer, base, p),
        forall|p: Seq<char>| #[trigger]
            reports(v, DiffKind::Added, p) <==> !base_has_at(base, p) && shows_at(layer, base, p),
        forall|p: Seq<char>| #[trigger]
            reports(v, DiffKind::Modified, p) ==> base_has_at(base, p) && shows_at(layer, base, p),
{
    let dir = Seq::<char>::empty();
    let c = diff::changes_in(layer, dir, false);
    let none = Seq::<diff::Change>::empty();
    let was = |p: Seq<char>| base_has_at(base, p);
    let now = |p: Seq<char>| shows_at(layer, base, p);
    let was_in = |p: Seq<char>| base_had(layer, base, dir, p);
    let now_in = |p: Seq<char>| layer_shows(layer, base, dir, p, false);
    let apart = |p: Seq<char>| mentions(diff::shadowed(base, layer, dir), p);
    lemma_entries_tell(layer, base, dir, false);
    assert(tells(none, apart, apart));
    assert forall|p: Seq<char>| #[trigger] was(p) == (was_in(p) || apart(p)) by {
        lemma_base_splits(layer, base, dir, false, p);
    }
    assert forall|p: Seq<char>| !((#[trigger] was_in(p) || now_in(p)) && (apart(p) || apart(p))) by {
        lemma_base_splits(layer, base, dir, false, p);
        assert(layer_shows(layer, base, dir, p, false) || !now_in(p));
        assert(base_had(layer, base, dir, p) || !was_in(p));
    }
    lemma_tells_both(c, was_in, now_in, none, apart, apart, was, now);
    assert(c + none =~= c);
    lemma_tells_rearranged(c, v, was, now);
    assert forall|p: Seq<char>, kind: DiffKind| #[trigger] reports(v, kind, p) implies match kind {
        DiffKind::Added => !was(p) && now(p),
        DiffKind::Modified => was(p) && now(p),
        DiffKind::Deleted => was(p) && !now(p),
    } by {
        let i = choose|i: int|
            0 <= i < v.len() && (#[trigger] v[i]).path == p && v[i].kind == kind;
        assert(v[i].kind == kind);
    }
    assert forall|p: Seq<char>| was(p) != now(p) implies (if was(p) {
        reports(v, DiffKind::Deleted, p)
    } else {
        reports(v, DiffKind::Added, p)
    }) by {
        assert(mentions(v, p));
        let i = choose|i: int| 0 <= i < v.len() && (#[trigger] v[i]).path == p;
        assert(v[i].path == p);
    }
    assert forall|p: Seq<char>| #[trigger] reports(v, DiffKind::Deleted, p) <==> base_has_at(base, p)
        && !shows_at(layer, base, p) by {
        assert(was(p) == base_has_at(base, p) && now(p) == shows_at(layer, base, p));
    }
    assert forall|p: Seq<char>| #[trigger] reports(v, DiffKind::Added, p) <==> !base_has_at(base, p)
        && shows_at(layer, base, p) by {
        assert(was(p) == base_has_at(base, p) && now(p) == shows_at(layer, base, p));
    }
}

// --- sizes and modes ---------------------------------------------------------

/// The path of `name` in directory `dir`; the top directory is empty.
pub open spec fn path_in(dir: Seq<char>, name: Seq<char>) -> Seq<char> {
    if dir.len() == 0 {
        name
    } else {
        dir + seq!['/'] + name
    }
}

/// The base image's directory `dir`, which holds `s`, has a file or directory
/// with metadata `m` at `p`, itself or further down.
pub open spec fn base_holds(s: Seq<BaseEntry>, dir: Seq<char>, p: Seq<char>, m: FileMeta) -> bool
    decreases s,
{
    s.len() > 0 && (base_holds(s.drop_last(), dir, p, m) || {
        let e = s.last();
        let q = path_in(dir, shown_name(e.name@));
        (p == q && m == e.meta) || (e.meta.kind == FileKind::Dir && base_holds(
            e.children@,
            q,
            p,
            m,
        ))
    })
}

/// The layer's directory `dir`, which holds `s`, has an entry with metadata `m`
/// at `p`, itself or further down.
pub open spec fn layer_holds(s: Seq<LayerEntry>, dir: Seq<char>, p: Seq<char>, m: FileMeta) -> bool
    decreases s,
{
    s.len() > 0 && (layer_holds(s.drop_last(), dir, p, m) || {
        let e = s.last();
        let q = path_in(dir, shown_name(e.name@));
        (p == q && m == e.meta) || (e.meta.kind == FileKind::Dir && layer_holds(
            e.children@,
            q,
            p,
            m,
        ))
    })
}

/// The change tells the size and the mode that `m` has: the size of anything
/// but a directory to the byte, the mode in octal.
pub open spec fn tells_meta(c: diff::Change, m: FileMeta) -> bool {
    &&& m.kind == FileKind::Dir ==> c.size is None
    &&& m.kind != FileKind::Dir ==> c.size == Some(m.size)
    &&& c.mode matches Some(t) && text::parsed(t, 8, u32::MAX as int) == Some(m.mode as int)
}

/// A deletion tells of something that the base image's directory has, any other
/// change of something that the layer's has.
spec fn is_told(
    c: diff::Change,
    s: Seq<LayerEntry>,
    b: Seq<BaseEntry>,
    dir: Seq<char>,
) -> bool {
    if c.kind == DiffKind::Deleted {
        exists|m: FileMeta| #[trigger] base_holds(b, dir, c.path, m) && tells_meta(c, m)
    } else {
        exists|m: FileMeta| #[trigger] layer_holds(s, dir, c.path, m) && tells_meta(c, m)
    }
}

proof fn lemma_path_in(dir: Seq<char>, name: Seq<char>)
    ensures
        diff::below(dir, name) == path_in(dir, name),
{
    reveal_strlit("/");
    assert("/"@ =~= seq!['/']);
}

proof fn lemma_change_tells(path: Seq<char>, kind: DiffKind, m: FileMeta)
    ensures
        tells_meta(diff::change_at(path, kind, m), m),
        diff::change_at(path, kind, m).path == path,
        diff::change_at(path, kind, m).kind == kind,
{
    text::law_number_roundtrip(m.mode as nat, 8, u32::MAX as int);
}

/// What is in an entry of a base directory is in the directory.
proof fn lemma_base_holds_at(b: Seq<BaseEntry>, k: int, dir: Seq<char>)
    requires
        0 <= k < b.len(),
    ensures
        base_holds(b, dir, path_in(dir, shown_name(b[k].name@)), b[k].meta),
        b[k].meta.kind == FileKind::Dir ==> forall|p: Seq<char>, m: FileMeta| #[trigger]
            base_holds(b[k].children@, path_in(dir, shown_name(b[k].name@)), p, m) ==> base_holds(
                b,
                dir,
                p,
                m,
            ),
    decreases b.len(),
{
    if k < b.len() - 1 {
        assert(b.drop_last()[k] == b[k]);
        lemma_base_holds_at(b.drop_last(), k, dir);
    }
}

proof fn lemma_loss_is_told(e: BaseEntry, path: Seq<char>, i: int)
    requires
        0 <= i < diff::deletions(e, path).len(),
    ensures
        diff::deletions(e, path)[i].kind == DiffKind::Deleted,
        (diff::deletions(e, path)[i].path == path && tells_meta(diff::deletions(e, path)[i], e.meta))
            || (e.meta.kind == FileKind::Dir && exists|m: FileMeta| #[trigger]
            base_holds(e.children@, path, diff::deletions(e, path)[i].path, m) && tells_meta(
                diff::deletions(e, path)[i],
                m,
            )),
    decreases e,
{
    lemma_change_tells(path, DiffKind::Deleted, e.meta);
    if i > 0 {
        assert(diff::deletions(e, path)[i] == diff::deletions_in(e.children@, path)[i - 1]);
        lemma_loss_is_told_in(e.children@, path, i - 1);
    }
}

proof fn lemma_loss_is_told_in(s: Seq<BaseEntry>, dir: Seq<char>, i: int)
    requires
        0 <= i < diff::deletions_in(s, dir).len(),
    ensures
        diff::deletions_in(s, dir)[i].kind == DiffKind::Deleted,
        exists|m: FileMeta| #[trigger]
            base_holds(s, dir, diff::deletions_in(s, dir)[i].path, m) && tells_meta(
                diff::deletions_in(s, dir)[i],
                m,
            ),
    decreases s,
{
    let c = diff::deletions_in(s, dir)[i];
    let front = diff::deletions_in(s.drop_last(), dir);
    let e = s.last();
    let q = path_in(dir, shown_name(e.name@));
    lemma_path_in(dir, shown_name(e.name@));
    if i < front.len() {
        lemma_loss_is_told_in(s.drop_last(), dir, i);
        let m = choose|m: FileMeta| #[trigger]
            base_holds(s.drop_last(), dir, c.path, m) && tells_meta(c, m);
        assert(base_holds(s, dir, c.path, m));
    } else {
        assert(c == diff::deletions(e, q)[i - front.len()]);
        lemma_loss_is_told(e, q, i - front.len());
        if c.path == q && tells_meta(c, e.meta) {
            assert(base_holds(s, dir, c.path, e.meta));
        } else {
            let m = choose|m: FileMeta| #[trigger]
                base_holds(e.children@, q, c.path, m) && tells_meta(c, m);
            assert(base_holds(s, dir, c.path, m));
        }
    }
}

proof fn lemma_shadowed_is_told(s: Seq<BaseEntry>, kept: Seq<LayerEntry>, dir: Seq<char>, i: int)
    requires
        0 <= i < diff::shadowed(s, kept, dir).len(),
    ensures
        diff::shadowed(s, kept, dir)[i].kind == DiffKind::Deleted,
        exists|m: FileMeta| #[trigger]
            base_holds(s, dir, diff::shadowed(s, kept, dir)[i].path, m) && tells_meta(
                diff::shadowed(s, kept, dir)[i],
                m,
            ),
    decreases s.len(),
{
    let c = diff::shadowed(s, kept, dir)[i];
    let front = diff::shadowed(s.drop_last(), kept, dir);
    let e = s.last();
    let q = path_in(dir, shown_name(e.name@));
    lemma_path_in(dir, shown_name(e.name@));
    if i < front.len() {
        lemma_shadowed_is_told(s.drop_last(), kept, dir, i);
        let m = choose|m: FileMeta| #[trigger]
            base_holds(s.drop_last(), dir, c.path, m) && tells_meta(c, m);
        assert(base_holds(s, dir, c.path, m));
    } else {
        assert(c == diff::deletions(e, q)[i - front.len()]);
        lemma_loss_is_told(e, q, i - front.len());
        if c.path == q && tells_meta(c, e.meta) {
            assert(base_holds(s, dir, c.path, e.meta));
        } else {
            let m = choose|m: FileMeta| #[trigger]
                base_holds(e.children@, q, c.path, m) && tells_meta(c, m);
            assert(base_holds(s, dir, c.path, m));
        }
    }
}

proof fn lemma_entry_is_told(
    e: LayerEntry,
    b: Seq<BaseEntry>,
    dir: Seq<char>,
    replaced: bool,
    i: int,
)
    requires
        entry_lies_over(e, entry_called(b, e.name@), replaced),
        0 <= i < diff::changes(e, path_in(dir, shown_name(e.name@)), replaced).len(),
    ensures
        is_told(
            diff::changes(e, path_in(dir, shown_name(e.name@)), replaced)[i],
            seq![e],
            b,
            dir,
        ),
    decreases e,
{
    let q = path_in(dir, shown_name(e.name@));
    let all = diff::changes(e, q, replaced);
    let c = all[i];
    let o = entry_called(b, e.name@);
    let one = seq![e];
    assert(one.last() == e);
    assert(layer_holds(one, dir, q, e.meta));
    lemma_entry_called(b, e.name@);
    lemma_change_tells(q, DiffKind::Added, e.meta);
    lemma_change_tells(q, DiffKind::Modified, e.meta);
    if let Some(x) = o {
        let k = choose|k: int| 0 <= k < b.len() && #[trigger] b[k] == x && x.name@ == e.name@;
        lemma_base_holds_at(b, k, dir);
        lemma_change_tells(q, DiffKind::Deleted, x.meta);
    }
    if diff::whiteout(e.meta) || e.meta.kind != FileKind::Dir {
        if i > 0 {
            assert(c == diff::deletions_in(e.covered@, q)[i - 1]);
            lemma_loss_is_told_in(e.covered@, q, i - 1);
            let m = choose|m: FileMeta| #[trigger]
                base_holds(e.covered@, q, c.path, m) && tells_meta(c, m);
            assert(base_holds(b, dir, c.path, m));
        } else if diff::whiteout(e.meta) {
            assert(base_holds(b, dir, c.path, e.base->0));
        }
    } else {
        let hides = diff::hides_base(e.base, e.trusted_opaque, e.user_opaque, replaced);
        let inner = diff::changes_in(e.children@, q, hides);
        let own = all.len() - inner.len();
        if i >= own {
            assert(c == inner[i - own]);
            lemma_entries_are_told(e.children@, inside(o), q, hides, i - own);
            if c.kind == DiffKind::Deleted {
                let m = choose|m: FileMeta| #[trigger]
                    base_holds(inside(o), q, c.path, m) && tells_meta(c, m);
                assert(base_holds(b, dir, c.path, m));
            } else {
                let m = choose|m: FileMeta| #[trigger]
                    layer_holds(e.children@, q, c.path, m) && tells_meta(c, m);
                assert(layer_holds(one, dir, c.path, m));
            }
        } else if diff::is_base_dir(e.base) {
            assert(c == diff::shadowed(e.covered@, e.children@, q)[i]);
            lemma_shadowed_is_told(e.covered@, e.children@, q, i);
            let m = choose|m: FileMeta| #[trigger]
                base_holds(e.covered@, q, c.path, m) && tells_meta(c, m);
            assert(base_holds(b, dir, c.path, m));
        }
    }
}

proof fn lemma_entries_are_told(
    s: Seq<LayerEntry>,
    b: Seq<BaseEntry>,
    dir: Seq<char>,
    replaced: bool,
    i: int,
)
    requires
        lies_over(s, b, replaced),
        0 <= i < diff::changes_in(s, dir, replaced).len(),
    ensures
        is_told(diff::changes_in(s, dir, replaced)[i], s, b, dir),
    decreases s,
{
    let c = diff::changes_in(s, dir, replaced)[i];
    let front = diff::changes_in(s.drop_last(), dir, replaced);
    let e = s.last();
    let q = path_in(dir, shown_name(e.name@));
    lemma_path_in(dir, shown_name(e.name@));
    if i < front.len() {
        lemma_entries_are_told(s.drop_last(), b, dir, replaced, i);
        if c.kind != DiffKind::Deleted {
            let m = choose|m: FileMeta| #[trigger]
                layer_holds(s.drop_last(), dir, c.path, m) && tells_meta(c, m);
            assert(layer_holds(s, dir, c.path, m));
        }
    } else {
        assert(c == diff::changes(e, q, replaced)[i - front.len()]);
        lemma_entry_is_told(e, b, dir, replaced, i - front.len());
        if c.kind != DiffKind::Deleted {
            let one = seq![e];
            let m = choose|m: FileMeta| #[trigger]
                layer_holds(one, dir, c.path, m) && tells_meta(c, m);
            assert(one.drop_last() =~= Seq::<LayerEntry>::empty());
            assert(!layer_holds(one.drop_last(), dir, c.path, m));
            assert(one.last() == e);
            assert(layer_holds(s, dir, c.path, m));
        }
    }
}

/// A diff tells sizes and modes as they are.
///
/// `v` is what `diff_upper` reports. Whatever is reported as added or modified
/// is in the layer at that path, and whatever is reported as deleted is in the
/// base image there; the size is that of the file to the byte, for a directory
/// there is none, and the mode is the file's.
pub proof fn law_diff_tells_sizes_and_modes(
    layer: Seq<LayerEntry>,
    base: Seq<BaseEntry>,
    v: Seq<diff::Change>,
    i: int,
)
    requires
        lies_over(layer, base, false),
        diff::rearranged(diff::changes_in(layer, Seq::empty(), false), v),
        0 <= i < v.len(),
    ensures
        v[i].kind != DiffKind::Deleted ==> exists|m: FileMeta| #[trigger]
            layer_holds(layer, Seq::empty(), v[i].path, m) && (if m.kind == FileKind::Dir {
                v[i].size is None
            } else {
                v[i].size == Some(m.size)
            }) && (v[i].mode matches Some(t) && text::parsed(t, 8, u32::MAX as int) == Some(
                m.mode as int,
            )),
        v[i].kind == DiffKind::Deleted ==> exists|m: FileMeta| #[trigger]
            base_holds(base, Seq::empty(), v[i].path, m) && (if m.kind == FileKind::Dir {
                v[i].size is None
            } else {
                v[i].size == Some(m.size)
            }) && (v[i].mode matches Some(t) && text::parsed(t, 8, u32::MAX as int) == Some(
                m.mode as int,
            )),
{
    let c = diff::changes_in(layer, Seq::empty(), false);
    let p = v[i].path;
    lemma_at_path_has(v, i);
    let k = choose|k: int| 0 <= k < diff::at_path(v, p).len() && diff::at_path(v, p)[k] == v[i];
    lemma_at_path_from(c, p, k);
    let j = choose|j: int|
        0 <= j < c.len() && #[trigger] c[j] == diff::at_path(c, p)[k] && c[j].path == p;
    assert(c[j] == v[i]);
    lemma_entries_are_told(layer, base, Seq::empty(), false, j);
    if v[i].kind == DiffKind::Deleted {
        let m = choose|m: FileMeta| #[trigger]
            base_holds(base, Seq::empty(), p, m) && tells_meta(v[i], m);
        assert(base_holds(base, Seq::empty(), v[i].path, m) && tells_meta(v[i], m));
    } else {
        let m = choose|m: FileMeta| #[trigger]
            layer_holds(layer, Seq::empty(), p, m) && tells_meta(v[i], m);
        assert(layer_holds(layer, Seq::empty(), v[i].path, m) && tells_meta(v[i], m));
    }
}

/// What the base image has is just what its tree holds, all the way down.
pub proof fn law_base_has_what_it_holds(b: Seq<BaseEntry>, dir: Seq<char>, p: Seq<char>)
    ensures
        base_has(b, dir, p) <==> exists|m: FileMeta| #[trigger] base_holds(b, dir, p, m),
    decreases b,
{
    let all = diff::deletions_in(b, dir);
    if mentions(all, p) {
        let i = choose|i: int| 0 <= i < all.len() && (#[trigger] all[i]).path == p;
        lemma_loss_is_told_in(b, dir, i);
    }
    if exists|m: FileMeta| #[trigger] base_holds(b, dir, p, m) {
        let m = choose|m: FileMeta| #[trigger] base_holds(b, dir, p, m);
        let e = b.last();
        let q = path_in(dir, shown_name(e.name@));
        let front = diff::deletions_in(b.drop_last(), dir);
        let own = diff::deletions(e, q);
        lemma_path_in(dir, shown_name(e.name@));
        law_base_has_what_it_holds(b.drop_last(), dir, p);
        law_base_has_what_it_holds(e.children@, q, p);
        lemma_change_tells(q, DiffKind::Deleted, e.meta);
        assert(own[0].path == q);
        if base_holds(b.drop_last(), dir, p, m) {
            assert(mentions(front, p));
        } else if p == q && m == e.meta {
            assert(mentions(own, p));
        } else {
            let inner = diff::deletions_in(e.children@, q);
            assert(base_holds(e.children@, q, p, m));
            assert(base_has(e.children@, q, p));
            let k = choose|k: int| 0 <= k < inner.len() && (#[trigger] inner[k]).path == p;
            assert(own[k + 1].path == p);
        }
        lemma_mentions_concat(front, own, p);
    }
}

/// What a directory that replaces the base's takes away is what the base's tree
/// holds in the entries that have no namesake in it.
pub proof fn law_shadowed_is_what_has_no_namesake(
    b: Seq<BaseEntry>,
    kept: Seq<LayerEntry>,
    dir: Seq<char>,
    p: Seq<char>,
)
    ensures
        mentions(diff::shadowed(b, kept, dir), p) <==> exists|k: int, m: FileMeta|
            0 <= k < b.len() && (forall|j: int|
                0 <= j < kept.len() ==> (#[trigger] kept[j]).name@ != b[k].name@)
                && #[trigger] base_holds(seq![b[k]], dir, p, m),
    decreases b.len(),
{
    let all = diff::shadowed(b, kept, dir);
    if b.len() > 0 {
        let front = b.drop_last();
        let e = b.last();
        let n = b.len() - 1;
        let q = path_in(dir, shown_name(e.name@));
        let rest = diff::shadowed(front, kept, dir);
        let own = diff::deletions(e, q);
        let one = seq![e];
        lemma_path_in(dir, shown_name(e.name@));
        law_shadowed_is_what_has_no_namesake(front, kept, dir, p);
        law_base_has_what_it_holds(one, dir, p);
        assert(one.drop_last() =~= Seq::<BaseEntry>::empty());
        assert(diff::deletions_in(one, dir) =~= own) by {
            assert(diff::deletions_in(one.drop_last(), dir) =~= Seq::<diff::Change>::empty());
        }
        lemma_mentions_concat(rest, own, p);
        if mentions(rest, p) {
            let (k, m) = choose|k: int, m: FileMeta|
                0 <= k < front.len() && (forall|j: int|
                    0 <= j < kept.len() ==> (#[trigger] kept[j]).name@ != front[k].name@)
                    && #[trigger] base_holds(seq![front[k]], dir, p, m);
            assert(front[k] == b[k]);
            assert(base_holds(seq![b[k]], dir, p, m));
        }
        if !diff::has_name(kept, e.name@) && mentions(own, p) {
            let m = choose|m: FileMeta| #[trigger] base_holds(one, dir, p, m);
            assert(b[n] == e);
            assert(base_holds(seq![b[n]], dir, p, m));
        }
        if exists|k: int, m: FileMeta|
            0 <= k < b.len() && (forall|j: int|
                0 <= j < kept.len() ==> (#[trigger] kept[j]).name@ != b[k].name@)
                && #[trigger] base_holds(seq![b[k]], dir, p, m) {
            let (k, m) = choose|k: int, m: FileMeta|
                0 <= k < b.len() && (forall|j: int|
                    0 <= j < kept.len() ==> (#[trigger] kept[j]).name@ != b[k].name@)
                    && #[trigger] base_holds(seq![b[k]], dir, p, m);
            if k < n {
                assert(front[k] == b[k]);
                assert(base_holds(seq![front[k]], dir, p, m));
            } else {
                assert(base_holds(one, dir, p, m));
                assert(mentions(own, p));
                assert(!diff::has_name(kept, e.name@));
            }
        }
    } else {
        assert(all =~= Seq::<diff::Change>::empty());
    }
}

/// Whatever the layer has that is no directory and marks no deletion is
/// reported, as added or as modified, however deep it lies.
pub proof fn law_every_file_of_the_layer_is_told(
    layer: Seq<LayerEntry>,
    v: Seq<diff::Change>,
    p: Seq<char>,
    m: FileMeta,
)
    requires
        diff::rearranged(diff::changes_in(layer, Seq::empty(), false), v),
        layer_holds(layer, Seq::empty(), p, m),
        m.kind != FileKind::Dir,
        !(m.kind == FileKind::CharDevice && m.rdev == 0),
    ensures
        reports(v, DiffKind::Added, p) || reports(v, DiffKind::Modified, p),
{
    let c = diff::changes_in(layer, Seq::empty(), false);
    lemma_file_is_told(layer, Seq::empty(), false, p, m);
    let i = choose|i: int|
        0 <= i < c.len() && (#[trigger] c[i]).path == p && c[i].kind != DiffKind::Deleted;
    lemma_at_path_has(c, i);
    let k = choose|k: int| 0 <= k < diff::at_path(c, p).len() && diff::at_path(c, p)[k] == c[i];
    assert(diff::at_path(v, p) == diff::at_path(c, p));
    lemma_at_path_from(v, p, k);
    let j = choose|j: int|
        0 <= j < v.len() && #[trigger] v[j] == diff::at_path(v, p)[k] && v[j].path == p;
    assert(v[j].kind == c[i].kind);
    if v[j].kind == DiffKind::Added {
        assert(reports(v, DiffKind::Added, p));
    } else {
        assert(reports(v, DiffKind::Modified, p));
    }
}

proof fn lemma_file_is_told(
    s: Seq<LayerEntry>,
    dir: Seq<char>,
    replaced: bool,
    p: Seq<char>,
    m: FileMeta,
)
    requires
        layer_holds(s, dir, p, m),
        m.kind != FileKind::Dir,
        !(m.kind == FileKind::CharDevice && m.rdev == 0),
    ensures
        exists|i: int|
            0 <= i < diff::changes_in(s, dir, replaced).len() && (#[trigger] diff::changes_in(
                s,
                dir,
                replaced,
            )[i]).path == p && diff::changes_in(s, dir, replaced)[i].kind != DiffKind::Deleted,
    decreases s,
{
    let all = diff::changes_in(s, dir, replaced);
    let front = diff::changes_in(s.drop_last(), dir, replaced);
    let e = s.last();
    let q = path_in(dir, shown_name(e.name@));
    lemma_path_in(dir, shown_name(e.name@));
    let own = diff::changes(e, q, replaced);
    let n = front.len() as int;
    if layer_holds(s.drop_last(), dir, p, m) {
        lemma_file_is_told(s.drop_last(), dir, replaced, p, m);
        let i = choose|i: int|
            0 <= i < front.len() && (#[trigger] front[i]).path == p && front[i].kind
                != DiffKind::Deleted;
        assert(all[i] == front[i]);
    } else if p == q && m == e.meta {
        assert(own[0].path == p && own[0].kind != DiffKind::Deleted);
        assert(all[n] == own[0]);
    } else {
        let hides = diff::hides_base(e.base, e.trusted_opaque, e.user_opaque, replaced);
        let inner = diff::changes_in(e.children@, q, hides);
        lemma_file_is_told(e.children@, q, hides, p, m);
        let i = choose|i: int|
            0 <= i < inner.len() && (#[trigger] inner[i]).path == p && inner[i].kind
                != DiffKind::Deleted;
        let k = own.len() - inner.len();
        assert(own[k + i] == inner[i]);
        assert(all[n + k + i] == inner[i]);
    }
}

} // verus!
