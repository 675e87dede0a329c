//! Copying layers.
//!
//! A layer is not plain data: deletions are device nodes, replaced directories
//! carry an attribute, and files may belong to subordinate ids. A copy keeps
//! all of that.

use vstd::prelude::*;

use crate::diff::{AttrRead, FileKind};
use crate::error::IoFailure;
use crate::text;
use crate::text::{from_utf8_lossy, starts_with};

verus! {

// --- one entry ---------------------------------------------------------------

/// A step of copying one entry.
#[derive(Debug, Clone, Copy, PartialEq, Eq, Structural)]
pub enum CopyStep {
    /// Create the directory.
    MakeDir,
    /// Copy what is in it.
    Children,
    /// Make a link to the same target.
    Link,
    /// Create the file and copy its contents.
    Contents,
    /// Create a node of the same type and device number.
    Node,
    /// Set the owner.
    Owner,
    /// Set the mode.
    Mode,
    /// Copy the extended attributes.
    Attributes,
}

/// The steps of copying an entry of that kind. A directory's mode comes after
/// what is in it: one like 0500 must not keep files from being created. Every
/// mode comes after the owner, whose change takes the set-id bits off. Links
/// have no mode of their own.
pub open spec fn steps_for(kind: FileKind) -> Seq<CopyStep> {
    match kind {
        FileKind::Dir => seq![
            CopyStep::MakeDir,
            CopyStep::Children,
            CopyStep::Owner,
            CopyStep::Mode,
            CopyStep::Attributes,
        ],
        FileKind::Symlink => seq![CopyStep::Link, CopyStep::Owner, CopyStep::Attributes],
        FileKind::File => seq![
            CopyStep::Contents,
            CopyStep::Owner,
            CopyStep::Mode,
            CopyStep::Attributes,
        ],
        FileKind::CharDevice | FileKind::Other => seq![
            CopyStep::Node,
            CopyStep::Owner,
            CopyStep::Mode,
            CopyStep::Attributes,
        ],
    }
}

/// The steps of copying an entry of that kind.
pub fn copy_steps(kind: FileKind) -> (r: Vec<CopyStep>)
    ensures
        r@ == steps_for(kind),
        r@.len() == (if kind == FileKind::Dir {
            5int
        } else if kind == FileKind::Symlink {
            3
        } else {
            4
        }),
        r@.contains(CopyStep::Mode) <==> kind != FileKind::Symlink,
        r@.contains(CopyStep::Children) <==> kind == FileKind::Dir,
{
    let mut v: Vec<CopyStep> = Vec::new();
    match kind {
        FileKind::Dir => {
            v.push(CopyStep::MakeDir);
            v.push(CopyStep::Children);
            v.push(CopyStep::Owner);
            v.push(CopyStep::Mode);
        },
        FileKind::Symlink => {
            v.push(CopyStep::Link);
            v.push(CopyStep::Owner);
        },
        FileKind::File => {
            v.push(CopyStep::Contents);
            v.push(CopyStep::Owner);
            v.push(CopyStep::Mode);
        },
        _ => {
            v.push(CopyStep::Node);
            v.push(CopyStep::Owner);
            v.push(CopyStep::Mode);
        },
    }
    v.push(CopyStep::Attributes);
    assert(v@ =~= steps_for(kind));
    proof {
        if kind == FileKind::Dir {
            assert(v@[1] == CopyStep::Children && v@[3] == CopyStep::Mode);
        } else if kind != FileKind::Symlink {
            assert(v@[2] == CopyStep::Mode);
        }
    }
    v
}

/// The mode of an entry after those steps, where they settle it: creating it
/// leaves the mode to the process's mask, and a change of owner takes the
/// set-id bits off.
pub open spec fn mode_after(steps: Seq<CopyStep>, mode: u32) -> Option<u32>
    decreases steps.len(),
{
    if steps.len() == 0 {
        None
    } else {
        match steps.last() {
            CopyStep::MakeDir | CopyStep::Link | CopyStep::Contents | CopyStep::Node => None,
            CopyStep::Mode => Some(mode),
            CopyStep::Owner => match mode_after(steps.drop_last(), mode) {
                Some(m) => Some(m & !0o6000u32),
                None => None,
            },
            CopyStep::Children | CopyStep::Attributes => mode_after(steps.drop_last(), mode),
        }
    }
}

/// The mode of everything that has one is kept whole, set-id bits and all.
pub proof fn law_modes_are_kept(kind: FileKind, mode: u32)
    requires
        kind != FileKind::Symlink,
    ensures
        mode_after(steps_for(kind), mode) == Some(mode),
{
    let s = steps_for(kind);
    let before = s.drop_last();
    assert(s.last() == CopyStep::Attributes);
    assert(before.last() == CopyStep::Mode);
    assert(mode_after(before, mode) == Some(mode));
}

/// Every entry is created first, gets its owner, and gets its attributes last;
/// a directory is filled before its mode is set.
pub proof fn law_steps_are_in_order(kind: FileKind)
    ensures
        steps_for(kind).last() == CopyStep::Attributes,
        steps_for(kind).contains(CopyStep::Owner),
        kind == FileKind::Dir ==> steps_for(kind)[1] == CopyStep::Children && steps_for(kind)[3]
            == CopyStep::Mode,
        steps_for(kind)[0] == match kind {
            FileKind::Dir => CopyStep::MakeDir,
            FileKind::Symlink => CopyStep::Link,
            FileKind::File => CopyStep::Contents,
            FileKind::CharDevice | FileKind::Other => CopyStep::Node,
        },
{
    let s = steps_for(kind);
    match kind {
        FileKind::Dir => {
            assert(s[2] == CopyStep::Owner);
        },
        _ => {
            assert(s[1] == CopyStep::Owner);
        },
    }
}

// --- contents ----------------------------------------------------------------

/// The system's error numbers that decisions depend on.
#[derive(Debug, Clone, Copy, PartialEq, Eq, Structural)]
pub enum Errno {
    Invalid,
    CrossDevice,
    NoSys,
    NotSupported,
    NoData,
    Range,
    Other,
}

/// What to do next to copy a file's contents.
#[derive(Debug, Clone, Copy, PartialEq, Eq, Structural)]
pub enum ContentsStep {
    /// All of it is copied: so many bytes.
    Done(u64),
    /// Let the kernel copy on; so many bytes are copied.
    Range(u64),
    /// Copy by reading and writing.
    ReadWrite,
    /// It failed.
    Fail,
}

/// What to do after trying to share the file's blocks, which is cheapest.
pub fn after_clone(cloned: bool, len: u64) -> (r: ContentsStep)
    ensures
        r == (if cloned {
            ContentsStep::Done(len)
        } else {
            ContentsStep::Range(0)
        }),
{
    if cloned {
        ContentsStep::Done(len)
    } else {
        ContentsStep::Range(0)
    }
}

/// The kernel cannot copy between those files at all.
pub open spec fn cannot_copy(e: Errno) -> bool {
    e == Errno::Invalid || e == Errno::CrossDevice || e == Errno::NoSys || e == Errno::NotSupported
}

/// What to do after the kernel copied some bytes, or failed to. Where it
/// cannot, and nothing is copied yet, reading and writing takes over; a failure
/// in the middle is a failure.
pub fn after_range(copied: u64, got: Result<u64, Errno>) -> (r: ContentsStep)
    requires
        got matches Ok(n) ==> copied + n <= u64::MAX,
    ensures
        r == match got {
            Ok(n) => if n == 0 {
                ContentsStep::Done(copied)
            } else {
                ContentsStep::Range((copied + n) as u64)
            },
            Err(e) => if cannot_copy(e) && copied == 0 {
                ContentsStep::ReadWrite
            } else {
                ContentsStep::Fail
            },
        },
        r == ContentsStep::ReadWrite <==> copied == 0 && (got == Err::<u64, Errno>(Errno::Invalid) || got
            == Err::<u64, Errno>(Errno::CrossDevice) || got == Err::<u64, Errno>(Errno::NoSys) || got
            == Err::<u64, Errno>(Errno::NotSupported)),
{
    match got {
        Ok(n) => if n == 0 {
            ContentsStep::Done(copied)
        } else {
            ContentsStep::Range(copied + n)
        },
        Err(e) => {
            let cannot: bool = match e {
                Errno::Invalid => true,
                Errno::CrossDevice => true,
                Errno::NoSys => true,
                Errno::NotSupported => true,
                _ => false,
            };
            if cannot && copied == 0 {
                ContentsStep::ReadWrite
            } else {
                ContentsStep::Fail
            }
        },
    }
}

// --- the size of a layer -----------------------------------------------------

/// The total of a layer's bytes after another file; none where it no longer
/// fits.
pub open spec fn total_with(total: u64, n: u64) -> Option<u64> {
    if total + n <= u64::MAX {
        Some((total + n) as u64)
    } else {
        None
    }
}

/// Adds what the contents of another file came to.
pub fn add_copied(total: u64, n: u64) -> (r: Option<u64>)
    ensures
        r == total_with(total, n),
        r matches Some(t) ==> t == total + n,
        r is None <==> total + n > u64::MAX,
{
    total.checked_add(n)
}

/// The total after copying those entries, each with what its contents, if it
/// has any to copy, came to.
pub open spec fn total_after(entries: Seq<(FileKind, u64)>) -> Option<u64>
    decreases entries.len(),
{
    if entries.len() == 0 {
        Some(0)
    } else {
        match total_after(entries.drop_last()) {
            Some(total) => if steps_for(entries.last().0).contains(CopyStep::Contents) {
                total_with(total, entries.last().1)
            } else {
                Some(total)
            },
            None => None,
        }
    }
}

/// The bytes of the regular files among those entries.
pub open spec fn file_bytes(entries: Seq<(FileKind, u64)>) -> int
    decreases entries.len(),
{
    if entries.len() == 0 {
        0
    } else {
        file_bytes(entries.drop_last()) + if entries.last().0 == FileKind::File {
            entries.last().1 as int
        } else {
            0
        }
    }
}

/// Only regular files have contents to copy.
pub proof fn law_only_files_have_contents(kind: FileKind)
    ensures
        steps_for(kind).contains(CopyStep::Contents) <==> kind == FileKind::File,
{
    let s = steps_for(kind);
    if kind == FileKind::File {
        assert(s[0] == CopyStep::Contents);
    }
}

/// The size that a copy comes to is the sum over the regular files that were
/// copied; there is none just where the sum does not fit.
pub proof fn law_size_is_the_sum(entries: Seq<(FileKind, u64)>)
    ensures
        file_bytes(entries) >= 0,
        total_after(entries) == (if file_bytes(entries) <= u64::MAX {
            Some(file_bytes(entries) as u64)
        } else {
            None
        }),
    decreases entries.len(),
{
    if entries.len() > 0 {
        law_size_is_the_sum(entries.drop_last());
        law_only_files_have_contents(entries.last().0);
    }
}

// --- attributes --------------------------------------------------------------

/// Position of the first zero byte; the length where there is none.
pub open spec fn until_nul(b: Seq<u8>) -> int
    decreases b.len(),
{
    if b.len() == 0 || b[0] == 0 {
        0
    } else {
        1 + until_nul(b.skip(1))
    }
}

/// The names in a list in which each ends with a zero byte.
pub open spec fn names_in(b: Seq<u8>) -> Seq<Seq<char>>
    decreases b.len(),
{
    let n = until_nul(b);
    let first = if 0 < n <= b.len() {
        seq![text::lossy_utf8(b.take(n))]
    } else {
        Seq::empty()
    };
    if 0 <= n < b.len() {
        first + names_in(b.skip(n + 1))
    } else {
        first
    }
}

proof fn lemma_until_nul(b: Seq<u8>, n: int)
    requires
        0 <= n <= b.len(),
        forall|k: int| 0 <= k < n ==> b[k] != 0,
        n < b.len() ==> b[n] == 0,
    ensures
        until_nul(b) == n,
    decreases b.len(),
{
    if n > 0 {
        assert forall|k: int| 0 <= k < n - 1 implies b.skip(1)[k] != 0 by {
            assert(b.skip(1)[k] == b[k + 1]);
        }
        lemma_until_nul(b.skip(1), n - 1);
    }
}

fn bytes_of(b: &Vec<u8>, from: usize, to: usize) -> (r: Vec<u8>)
    requires
        from <= to <= b@.len(),
    ensures
        r@ == b@.subrange(from as int, to as int),
{
    let mut v: Vec<u8> = Vec::new();
    let mut i: usize = from;
    while i < to
        invariant
            from <= i <= to <= b@.len(),
            v@ == b@.subrange(from as int, i as int),
        decreases to - i,
    {
        v.push(b[i]);
        assert(v@ =~= b@.subrange(from as int, i + 1));
        i += 1;
    }
    v
}

/// The names in a list in which each ends with a zero byte.
pub fn list_names(b: &Vec<u8>) -> (r: Vec<String>)
    ensures
        text::views(r@) == names_in(b@),
{
    let mut out: Vec<String> = Vec::new();
    let mut i: usize = 0;
    assert(b@.skip(0) =~= b@);
    assert(text::views(out@) + names_in(b@) =~= names_in(b@));
    while i < b.len()
        invariant
            i <= b@.len(),
            names_in(b@) =~= text::views(out@) + names_in(b@.skip(i as int)),
        decreases b@.len() - i,
    {
        let ghost rest = b@.skip(i as int);
        let ghost before = out@;
        let mut n: usize = i;
        while n < b.len() && b[n] != 0
            invariant
                i <= n <= b@.len(),
                forall|k: int| i <= k < n ==> b@[k] != 0,
            decreases b@.len() - n,
        {
            n += 1;
        }
        proof {
            assert forall|k: int| 0 <= k < n - i implies rest[k] != 0 by {
                assert(rest[k] == b@[i + k]);
            }
            lemma_until_nul(rest, n - i);
        }
        if n > i {
            let piece: Vec<u8> = bytes_of(b, i, n);
            assert(piece@ =~= rest.take(n - i));
            let name: String = from_utf8_lossy(piece.as_slice());
            out.push(name);
            assert(text::views(out@) =~= text::views(before).push(name@));
        }
        if n < b.len() {
            assert(rest.skip(n - i + 1) =~= b@.skip(n + 1));
            i = n + 1;
        } else {
            assert(b@.skip(n as int) =~= Seq::<u8>::empty());
            assert(names_in(Seq::<u8>::empty()) =~= Seq::<Seq<char>>::empty());
            i = n;
        }
    }
    assert(b@.skip(i as int) =~= Seq::<u8>::empty());
    assert(names_in(Seq::<u8>::empty()) =~= Seq::<Seq<char>>::empty());
    out
}

/// A zero byte ends a name, and is part of none: a name and the zero behind it
/// put one more name in front, and a zero alone puts none.
pub proof fn law_names_end_with_zero(w: Seq<u8>, rest: Seq<u8>)
    requires
        w.len() > 0,
        !w.contains(0u8),
    ensures
        names_in(w + seq![0u8] + rest) == seq![text::lossy_utf8(w)] + names_in(rest),
        names_in(seq![0u8] + rest) == names_in(rest),
        names_in(w) == seq![text::lossy_utf8(w)],
        names_in(Seq::empty()) == Seq::<Seq<char>>::empty(),
{
    assert forall|k: int| 0 <= k < w.len() implies w[k] != 0 by {
        assert(w.contains(w[k]));
    }
    let n = w.len() as int;
    let s = w + seq![0u8] + rest;
    assert forall|k: int| 0 <= k < n implies s[k] != 0 by {
        assert(s[k] == w[k]);
    }
    lemma_until_nul(s, n);
    assert(s.take(n) =~= w);
    assert(s.skip(n + 1) =~= rest);
    lemma_until_nul(w, n);
    assert(w.take(n) =~= w);
    let z = seq![0u8] + rest;
    lemma_until_nul(z, 0);
    assert(z.skip(1) =~= rest);
    assert(names_in(z) =~= names_in(rest));
    assert(names_in(Seq::<u8>::empty()) =~= Seq::<Seq<char>>::empty());
}

/// Whether failing to list attributes just means that there are none: some
/// files on some file systems cannot have any.
pub fn has_no_attributes(e: Errno) -> (r: bool)
    ensures
        r == (e == Errno::NotSupported),
{
    match e {
        Errno::NotSupported => true,
        _ => false,
    }
}

/// How large a buffer an attribute's value is first read into.
pub const FIRST_ATTR_BUFFER: usize = 256;

/// What to do after reading an attribute.
#[derive(Debug, Clone, Copy, PartialEq, Eq, Structural)]
pub enum AttrStep {
    /// The value has so many bytes.
    Value(usize),
    /// It is not set.
    Absent,
    /// Read again, into a buffer of that size.
    Grow(usize),
    /// It failed.
    Fail,
}

/// What to do after reading an attribute into a buffer of `size` bytes.
pub fn get_xattr_step(got: Result<usize, Errno>, size: usize) -> (r: AttrStep)
    requires
        size * 2 <= usize::MAX,
    ensures
        r == match got {
            Ok(n) => AttrStep::Value(n),
            Err(Errno::NoData) | Err(Errno::NotSupported) => AttrStep::Absent,
            Err(Errno::Range) => AttrStep::Grow((size * 2) as usize),
            Err(_) => AttrStep::Fail,
        },
{
    match got {
        Ok(n) => AttrStep::Value(n),
        Err(Errno::NoData) => AttrStep::Absent,
        Err(Errno::NotSupported) => AttrStep::Absent,
        Err(Errno::Range) => AttrStep::Grow(size * 2),
        Err(_) => AttrStep::Fail,
    }
}

/// What came of copying one attribute: its value as it was read and, where
/// there was one, what came of writing it.
#[derive(Debug)]
pub struct AttrCopy {
    pub name: String,
    pub read: AttrRead,
    pub written: Result<(), IoFailure>,
}

/// An attribute that overlays depend on.
pub open spec fn is_overlay_attr(name: Seq<char>) -> bool {
    text::begins(name, "user.overlay."@) || text::begins(name, "trusted.overlay."@)
}

/// Why the copy fails on this attribute, if it does. One that cannot be read
/// or written is a failure only where overlays depend on it, for losing that
/// would corrupt the layer; others are copied as well as can be. One that is
/// gone by now is no failure.
pub open spec fn attr_failure(a: AttrCopy) -> Option<IoFailure> {
    if !is_overlay_attr(a.name@) {
        None
    } else {
        match a.read {
            Err(f) => Some(f),
            Ok(None) => None,
            Ok(Some(_)) => match a.written {
                Err(f) => Some(f),
                Ok(()) => None,
            },
        }
    }
}

/// Why the copy of those attributes fails, if it does.
pub open spec fn attrs_failure(v: Seq<AttrCopy>) -> Option<IoFailure>
    decreases v.len(),
{
    if v.len() == 0 {
        None
    } else {
        match attrs_failure(v.drop_last()) {
            Some(f) => Some(f),
            None => attr_failure(v.last()),
        }
    }
}

/// Whether copying goes on after this attribute.
pub fn check_attr(a: &AttrCopy) -> (r: Result<(), IoFailure>)
    ensures
        match attr_failure(*a) {
            Some(f) => r == Err::<(), IoFailure>(f),
            None => r is Ok,
        },
        r is Err <==> (text::begins(a.name@, "user.overlay."@) || text::begins(
            a.name@,
            "trusted.overlay."@,
        )) && (a.read is Err || (a.read matches Ok(Some(_)) && a.written is Err)),
        r matches Err(f) ==> a.read == Err::<Option<Vec<u8>>, IoFailure>(f) || (a.read is Ok && a.written
            == Err::<(), IoFailure>(f)),
{
    if !starts_with(a.name.as_str(), "user.overlay.") && !starts_with(
        a.name.as_str(),
        "trusted.overlay.",
    ) {
        return Ok(());
    }
    match &a.read {
        Err(f) => Err(f.duplicate()),
        Ok(None) => Ok(()),
        Ok(Some(_)) => match &a.written {
            Err(f) => Err(f.duplicate()),
            Ok(()) => Ok(()),
        },
    }
}

/// What copying those attributes comes to.
pub fn copy_xattrs(v: &Vec<AttrCopy>) -> (r: Result<(), IoFailure>)
    ensures
        match attrs_failure(v@) {
            Some(f) => r == Err::<(), IoFailure>(f),
            None => r is Ok,
        },
{
    let mut i: usize = 0;
    assert(v@.take(0) =~= Seq::<AttrCopy>::empty());
    while i < v.len()
        invariant
            i <= v@.len(),
            attrs_failure(v@.take(i as int)) is None,
        decreases v@.len() - i,
    {
        assert(v@.take(i + 1).drop_last() =~= v@.take(i as int));
        assert(v@.take(i + 1).last() == v@[i as int]);
        match check_attr(&v[i]) {
            Ok(()) => {},
            Err(f) => {
                proof {
                    lemma_attrs_failure_stays(v@, i + 1);
                }
                return Err(f);
            },
        }
        i += 1;
    }
    assert(v@.take(i as int) =~= v@);
    Ok(())
}

proof fn lemma_attrs_failure_stays(v: Seq<AttrCopy>, n: int)
    requires
        0 <= n <= v.len(),
        attrs_failure(v.take(n)) is Some,
    ensures
        attrs_failure(v) == attrs_failure(v.take(n)),
    decreases v.len() - n,
{
    if n < v.len() {
        assert(v.take(n + 1).drop_last() =~= v.take(n));
        lemma_attrs_failure_stays(v, n + 1);
    } else {
        assert(v.take(n) =~= v);
    }
}

/// The attribute is there and was not copied.
pub open spec fn attr_lost(a: AttrCopy) -> bool {
    a.read is Err || (a.read matches Ok(Some(_)) && a.written is Err)
}

/// Attributes are copied unless one that overlays depend on is lost: none of
/// those is lost in silence, and no other stops the copy.
pub proof fn law_overlay_attributes_are_kept(v: Seq<AttrCopy>)
    ensures
        attrs_failure(v) is Some <==> exists|i: int|
            0 <= i < v.len() && is_overlay_attr(v[i].name@) && attr_lost(#[trigger] v[i]),
    decreases v.len(),
{
    if v.len() > 0 {
        let front = v.drop_last();
        law_overlay_attributes_are_kept(front);
        assert(forall|i: int| 0 <= i < front.len() ==> front[i] == #[trigger] v[i]);
        if attrs_failure(v) is Some {
            if attrs_failure(front) is Some {
                let i = choose|i: int|
                    0 <= i < front.len() && is_overlay_attr(front[i].name@) && attr_lost(
                        #[trigger] front[i],
                    );
                assert(attr_lost(v[i]));
            } else {
                assert(attr_lost(v[v.len() - 1]));
            }
        } else {
            assert forall|i: int| 0 <= i < v.len() && is_overlay_attr(v[i].name@) implies !attr_lost(
                #[trigger] v[i],
            ) by {
                if i < front.len() {
                    assert(!attr_lost(front[i]));
                }
            }
        }
    }
}

} // verus!
