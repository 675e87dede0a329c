//! Structural diff of an overlayfs upper layer against its base image.
//!
//! The upper layer records only deltas, but not as plain files: a deletion is
//! a character device with device number 0:0 (a "whiteout"), and a directory
//! that fully replaces the base's carries an `overlay.opaque` attribute. The
//! walker decodes both instead of reporting them literally.
//!
//! A layer is handed over as a tree of what was read from disk, in the order
//! it was read. Where reading stopped early, the tree says why.

use vstd::prelude::*;

use crate::error::{Error, IoFailure};
use crate::lists::reversed;
use crate::text;
use crate::text::{copied, from_utf8_lossy, in_order, push_digits};
use crate::types::{DiffEntry, DiffKind};

verus! {

/// What kind of file a directory entry is; symbolic links are not followed.
#[derive(Debug, Clone, Copy, PartialEq, Eq, Structural)]
pub enum FileKind {
    Dir,
    File,
    Symlink,
    CharDevice,
    Other,
}

/// What the walker reads of a file's metadata.
#[derive(Debug, Clone, Copy, PartialEq, Eq, Structural)]
pub struct FileMeta {
    pub kind: FileKind,
    pub size: u64,
    /// File type and permission bits.
    pub mode: u32,
    /// Device number of a device node.
    pub rdev: u64,
}

/// A file or directory of the base image.
#[derive(Debug)]
pub struct BaseEntry {
    /// File name, as the raw bytes of the directory entry.
    pub name: Vec<u8>,
    pub meta: FileMeta,
    /// Contents of a directory.
    pub children: Vec<BaseEntry>,
    /// Why reading the directory stopped after `children`, if it did.
    pub failure: Option<IoFailure>,
}

/// The value of an extended attribute, if it is set, or why it was unreadable.
pub type AttrRead = Result<Option<Vec<u8>>, IoFailure>;

/// A file or directory of the upper layer, with what the base image has at
/// the same path.
#[derive(Debug)]
pub struct LayerEntry {
    /// File name, as the raw bytes of the directory entry.
    pub name: Vec<u8>,
    pub meta: FileMeta,
    /// What the base image has at this path.
    pub base: Option<FileMeta>,
    /// `trusted.overlay.opaque` of a directory.
    pub trusted_opaque: AttrRead,
    /// `user.overlay.opaque` of a directory.
    pub user_opaque: AttrRead,
    /// Contents of a directory.
    pub children: Vec<LayerEntry>,
    /// Why reading the directory stopped after `children`, if it did.
    pub failure: Option<IoFailure>,
    /// The base image's directory at this path; read only where
    /// `reads_base` asks for it.
    pub covered: Vec<BaseEntry>,
    /// Why reading the base directory stopped after `covered`, if it did.
    pub covered_failure: Option<IoFailure>,
}

/// The top of an upper layer.
#[derive(Debug)]
pub struct Layer {
    pub children: Vec<LayerEntry>,
    pub failure: Option<IoFailure>,
}

// --- single entries ----------------------------------------------------------

/// An entry that marks a deletion: a character device with number 0:0.
pub open spec fn whiteout(m: FileMeta) -> bool {
    m.kind == FileKind::CharDevice && m.rdev == 0
}

/// Whether an entry marks a deletion.
pub fn is_whiteout(m: &FileMeta) -> (r: bool)
    ensures
        r == whiteout(*m),
        r <==> m.kind == FileKind::CharDevice && m.rdev == 0,
{
    m.kind == FileKind::CharDevice && m.rdev == 0
}

/// An attribute value that marks a directory as replacing the base's.
pub open spec fn says_yes(v: Option<Vec<u8>>) -> bool {
    v matches Some(b) && b@ == seq![0x79u8]
}

/// Whether the two opaque attributes mark a directory as replacing the base's;
/// the second is looked at only where the first does not.
pub open spec fn opaque(trusted: AttrRead, user: AttrRead) -> Result<bool, IoFailure> {
    match trusted {
        Err(f) => Err(f),
        Ok(t) => if says_yes(t) {
            Ok(true)
        } else {
            match user {
                Err(f) => Err(f),
                Ok(u) => Ok(says_yes(u)),
            }
        },
    }
}

fn yes(v: &Option<Vec<u8>>) -> (r: bool)
    ensures
        r == says_yes(*v),
{
    match v {
        Some(b) => {
            let r: bool = b.len() == 1 && b[0] == 0x79;
            assert(r ==> b@ =~= seq![0x79u8]);
            r
        },
        None => false,
    }
}

/// Whether a directory carries the opaque marker: `overlay.opaque = "y"` in
/// the trusted (mounted by root) or the user (rootless) namespace.
pub fn is_opaque(trusted: &AttrRead, user: &AttrRead) -> (r: Result<bool, IoFailure>)
    ensures
        r == opaque(*trusted, *user),
        r is Err <==> *trusted is Err || (*user is Err && !(*trusted matches Ok(Some(b)) && b@
            == seq![121u8])),
        r matches Ok(o) ==> (o <==> (*trusted matches Ok(Some(b)) && b@ == seq![121u8]) || (
        *user matches Ok(Some(b)) && b@ == seq![121u8])),
{
    match trusted {
        Err(f) => Err(f.duplicate()),
        Ok(t) => if yes(t) {
            Ok(true)
        } else {
            match user {
                Err(f) => Err(f.duplicate()),
                Ok(u) => Ok(yes(u)),
            }
        },
    }
}

/// What the base image has at this path is a directory.
pub open spec fn is_base_dir(base: Option<FileMeta>) -> bool {
    base matches Some(b) && b.kind == FileKind::Dir
}

/// Nothing of the base's directory shows through the layer's: it carries the
/// opaque marker, or lies in a directory that replaces the base's.
pub open spec fn replaces(replaced: bool, trusted: AttrRead, user: AttrRead) -> bool {
    opaque(trusted, user) matches Ok(o) && (o || replaced)
}

/// Whether the walk looks into the base image's directory at an entry's path:
/// to report what a whiteout, a directory that replaces the base's or a file
/// took away. `replaced` says whether the entry lies in a directory that
/// replaces the base's.
pub open spec fn base_matters(
    meta: FileMeta,
    base: Option<FileMeta>,
    trusted: AttrRead,
    user: AttrRead,
    replaced: bool,
) -> bool {
    is_base_dir(base) && (meta.kind == FileKind::Dir ==> replaces(replaced, trusted, user))
}

/// Whether the base image's directory at an entry's path has to be read.
pub fn reads_base(
    meta: &FileMeta,
    base: &Option<FileMeta>,
    trusted: &AttrRead,
    user: &AttrRead,
    replaced: bool,
) -> (r: bool)
    ensures
        r == base_matters(*meta, *base, *trusted, *user, replaced),
        r ==> (*base matches Some(b) && b.kind == FileKind::Dir),
        meta.kind != FileKind::Dir && (*base matches Some(b) && b.kind == FileKind::Dir) ==> r,
        meta.kind == FileKind::Dir && (*base matches Some(b) && b.kind == FileKind::Dir) ==> (r
            <==> (opaque(*trusted, *user) matches Ok(o) && (o || replaced))),
{
    match base {
        None => false,
        Some(b) => if b.kind != FileKind::Dir {
            false
        } else if meta.kind != FileKind::Dir {
            true
        } else {
            match is_opaque(trusted, user) {
                Ok(o) => o || replaced,
                Err(_) => false,
            }
        },
    }
}

/// What lies in a directory lies in one that replaces the base's: where this
/// one does, or lies in one that does.
pub open spec fn hides_base(
    base: Option<FileMeta>,
    trusted: AttrRead,
    user: AttrRead,
    replaced: bool,
) -> bool {
    replaced || (is_base_dir(base) && replaces(replaced, trusted, user))
}

/// Whether what lies in a directory lies in one that replaces the base's.
pub fn children_replaced(
    base: &Option<FileMeta>,
    trusted: &AttrRead,
    user: &AttrRead,
    replaced: bool,
) -> (r: bool)
    ensures
        r == hides_base(*base, *trusted, *user, replaced),
        r <==> replaced || ((*base matches Some(b) && b.kind == FileKind::Dir) && (opaque(
            *trusted,
            *user,
        ) matches Ok(o) && o)),
{
    if replaced {
        return true;
    }
    match base {
        None => false,
        Some(b) => if b.kind != FileKind::Dir {
            false
        } else {
            match is_opaque(trusted, user) {
                Ok(o) => o,
                Err(_) => false,
            }
        },
    }
}

/// The path of `name` below `rel`.
pub open spec fn below(rel: Seq<char>, name: Seq<char>) -> Seq<char> {
    if rel.len() == 0 {
        name
    } else {
        rel + "/"@ + name
    }
}

/// The path of `name` below `rel`.
pub fn join_rel(rel: &str, name: &str) -> (r: String)
    ensures
        r@ == below(rel@, name@),
        rel@.len() == 0 ==> r@ == name@,
        rel@.len() > 0 ==> r@ == rel@ + seq!['/'] + name@,
{
    proof {
        reveal_strlit("/");
        assert("/"@ =~= seq!['/']);
    }
    if rel.is_empty() {
        copied(name)
    } else {
        let mut s: String = copied(rel);
        s.append("/");
        s.append(name);
        s
    }
}

/// What a `DiffEntry` says, over mathematical values.
pub struct Change {
    pub path: Seq<char>,
    pub kind: DiffKind,
    pub size: Option<u64>,
    pub mode: Option<Seq<char>>,
}

impl View for DiffEntry {
    type V = Change;

    open spec fn view(&self) -> Change {
        Change {
            path: self.path@,
            kind: self.kind,
            size: self.size,
            mode: text::opt_view(self.mode),
        }
    }
}

/// What each entry of a diff says.
pub open spec fn facts(v: Seq<DiffEntry>) -> Seq<Change> {
    v.map_values(|e: DiffEntry| e@)
}

/// The change at `path` of a file with metadata `m`.
pub open spec fn change_at(path: Seq<char>, kind: DiffKind, m: FileMeta) -> Change {
    Change {
        path,
        kind,
        size: if m.kind == FileKind::Dir {
            None
        } else {
            Some(m.size)
        },
        mode: Some(text::digits_of(m.mode as nat, 8)),
    }
}

fn entry_for(path: &str, kind: DiffKind, m: &FileMeta) -> (r: DiffEntry)
    ensures
        r@ == change_at(path@, kind, *m),
        r.path@ == path@,
        r.kind == kind,
        m.kind == FileKind::Dir ==> r.size is None,
        m.kind != FileKind::Dir ==> r.size == Some(m.size),
        r.mode matches Some(t) && text::parsed(t@, 8, u32::MAX as int) == Some(m.mode as int),
{
    let mut mode: String = String::new();
    push_digits(&mut mode, m.mode as u64, 8);
    proof {
        assert(mode@ =~= text::digits_of(m.mode as nat, 8));
        text::law_number_roundtrip(m.mode as nat, 8, u32::MAX as int);
    }
    let size: Option<u64> = if m.kind == FileKind::Dir {
        None
    } else {
        Some(m.size)
    };
    DiffEntry { path: copied(path), kind, size, mode: Some(mode) }
}

proof fn lemma_facts_push(v: Seq<DiffEntry>, e: DiffEntry)
    ensures
        facts(v.push(e)) == facts(v).push(e@),
{
    assert(facts(v.push(e)) =~= facts(v).push(e@));
}

// --- deletions ---------------------------------------------------------------

/// The deletions that the loss of `e` at `path` amounts to: `e` itself and,
/// for a directory, everything below it.
pub open spec fn deletions(e: BaseEntry, path: Seq<char>) -> Seq<Change>
    decreases e,
{
    let own = seq![change_at(path, DiffKind::Deleted, e.meta)];
    if e.meta.kind == FileKind::Dir {
        own + deletions_in(e.children@, path)
    } else {
        own
    }
}

/// The deletions that the loss of the entries `s` of directory `path` amounts
/// to.
pub open spec fn deletions_in(s: Seq<BaseEntry>, path: Seq<char>) -> Seq<Change>
    decreases s,
{
    if s.len() == 0 {
        Seq::empty()
    } else {
        deletions_in(s.drop_last(), path) + deletions(
            s.last(),
            below(path, text::lossy_utf8(s.last().name@)),
        )
    }
}

/// The first failure met while reading everything below `e`.
pub open spec fn loss_failure(e: BaseEntry) -> Option<IoFailure>
    decreases e,
{
    if e.meta.kind == FileKind::Dir {
        match loss_failure_in(e.children@) {
            Some(f) => Some(f),
            None => e.failure,
        }
    } else {
        None
    }
}

/// The first failure met while reading the entries `s` and all below them.
pub open spec fn loss_failure_in(s: Seq<BaseEntry>) -> Option<IoFailure>
    decreases s,
{
    if s.len() == 0 {
        None
    } else {
        match loss_failure_in(s.drop_last()) {
            Some(f) => Some(f),
            None => loss_failure(s.last()),
        }
    }
}

/// Reports the deletions in the entries `list` of directory `path`, then the
/// failure that ended the reading of that directory, if any.
fn push_deleted_in(
    list: &Vec<BaseEntry>,
    failure: &Option<IoFailure>,
    path: &str,
    out: &mut Vec<DiffEntry>,
) -> (r: Result<(), IoFailure>)
    ensures
        r matches Err(f) ==> first_of(loss_failure_in(list@), *failure) == Some(f),
        r is Ok ==> first_of(loss_failure_in(list@), *failure) is None && facts(final(out)@)
            == facts(old(out)@) + deletions_in(list@, path@),
    decreases list,
{
    let mut i: usize = 0;
    assert(list@.take(0) =~= Seq::<BaseEntry>::empty());
    assert(facts(out@) =~= facts(old(out)@) + deletions_in(list@.take(0), path@));
    while i < list.len()
        invariant
            i <= list@.len(),
            loss_failure_in(list@.take(i as int)) is None,
            facts(out@) == facts(old(out)@) + deletions_in(list@.take(i as int), path@),
        decreases list@.len() - i,
    {
        let ghost next = list@.take(i + 1);
        proof {
            assert(next.drop_last() =~= list@.take(i as int));
            assert(next.last() == list@[i as int]);
        }
        let ghost before = out@;
        let name: String = from_utf8_lossy(list[i].name.as_slice());
        let p: String = join_rel(path, name.as_str());
        match push_deleted(&list[i], p.as_str(), out) {
            Ok(()) => {},
            Err(f) => {
                proof {
                    lemma_loss_failure_stays(list@, i + 1);
                }
                return Err(f);
            },
        }
        assert(facts(out@) =~= facts(old(out)@) + deletions_in(next, path@));
        i += 1;
    }
    assert(list@.take(i as int) =~= list@);
    match failure {
        Some(f) => Err(f.duplicate()),
        None => Ok(()),
    }
}

/// Reports the deletion of `e` at `path` and, for a directory, of everything
/// below it, so that a removed subtree is reported file by file.
fn push_deleted(e: &BaseEntry, path: &str, out: &mut Vec<DiffEntry>) -> (r: Result<(), IoFailure>)
    ensures
        r matches Err(f) ==> loss_failure(*e) == Some(f),
        r is Ok ==> loss_failure(*e) is None && facts(final(out)@) == facts(old(out)@) + deletions(
            *e,
            path@,
        ),
    decreases e,
{
    out.push(entry_for(path, DiffKind::Deleted, &e.meta));
    proof {
        lemma_facts_push(old(out)@, out@.last());
        assert(out@ =~= old(out)@.push(out@.last()));
    }
    if e.meta.kind == FileKind::Dir {
        let ghost mid = out@;
        let r: Result<(), IoFailure> = push_deleted_in(&e.children, &e.failure, path, out);
        assert(r is Ok ==> facts(out@) =~= facts(old(out)@) + deletions(*e, path@));
        r
    } else {
        assert(facts(out@) =~= facts(old(out)@) + deletions(*e, path@));
        Ok(())
    }
}

/// The first of two failures.
pub open spec fn first_of(a: Option<IoFailure>, b: Option<IoFailure>) -> Option<IoFailure> {
    match a {
        Some(f) => Some(f),
        None => b,
    }
}

proof fn lemma_loss_failure_stays(s: Seq<BaseEntry>, n: int)
    requires
        0 <= n <= s.len(),
        loss_failure_in(s.take(n)) is Some,
    ensures
        loss_failure_in(s) == loss_failure_in(s.take(n)),
    decreases s.len() - n,
{
    if n < s.len() {
        assert(s.take(n + 1).drop_last() =~= s.take(n));
        lemma_loss_failure_stays(s, n + 1);
    } else {
        assert(s.take(n) =~= s);
    }
}

// --- the walk ----------------------------------------------------------------

/// One of the entries `s` is called `name`.
pub open spec fn has_name(s: Seq<LayerEntry>, name: Seq<u8>) -> bool {
    exists|k: int| 0 <= k < s.len() && (#[trigger] s[k]).name@ == name
}

/// The deletions of those entries `s` of directory `path` that have no entry
/// at all in the directory that replaces it and holds `kept`.
pub open spec fn shadowed(s: Seq<BaseEntry>, kept: Seq<LayerEntry>, path: Seq<char>) -> Seq<Change>
    decreases s.len(),
{
    if s.len() == 0 {
        Seq::empty()
    } else {
        let rest = shadowed(s.drop_last(), kept, path);
        if has_name(kept, s.last().name@) {
            rest
        } else {
            rest + deletions(s.last(), below(path, text::lossy_utf8(s.last().name@)))
        }
    }
}

/// The first failure met while reading what `shadowed` reports.
pub open spec fn shadow_failure(s: Seq<BaseEntry>, kept: Seq<LayerEntry>) -> Option<IoFailure>
    decreases s.len(),
{
    if s.len() == 0 {
        None
    } else {
        match shadow_failure(s.drop_last(), kept) {
            Some(f) => Some(f),
            None => if has_name(kept, s.last().name@) {
                None
            } else {
                loss_failure(s.last())
            },
        }
    }
}

/// What the entry `e` of the upper layer at `path` changes.
///
/// A whiteout deletes what the base has there, subtree included; over nothing
/// it is bookkeeping. A directory over a directory is traversal structure, not
/// a change, unless it replaces the base's: by its opaque marker or, as
/// `replaced` says, because it lies in one that does. What the base has in it
/// and the layer does not is then gone. A directory over anything else is a
/// change itself. A file is added or modified, and takes away what lived under
/// a base directory.
pub open spec fn changes(e: LayerEntry, path: Seq<char>, replaced: bool) -> Seq<Change>
    decreases e,
{
    if whiteout(e.meta) {
        match e.base {
            None => Seq::empty(),
            Some(b) => if b.kind == FileKind::Dir {
                seq![change_at(path, DiffKind::Deleted, b)] + deletions_in(e.covered@, path)
            } else {
                seq![change_at(path, DiffKind::Deleted, b)]
            },
        }
    } else if e.meta.kind == FileKind::Dir {
        let own = match e.base {
            None => seq![change_at(path, DiffKind::Added, e.meta)],
            Some(b) => if b.kind != FileKind::Dir {
                seq![change_at(path, DiffKind::Modified, e.meta)]
            } else if replaces(replaced, e.trusted_opaque, e.user_opaque) {
                shadowed(e.covered@, e.children@, path)
            } else {
                Seq::empty()
            },
        };
        own + changes_in(
            e.children@,
            path,
            hides_base(e.base, e.trusted_opaque, e.user_opaque, replaced),
        )
    } else {
        match e.base {
            None => seq![change_at(path, DiffKind::Added, e.meta)],
            Some(b) => if b.kind == FileKind::Dir {
                seq![change_at(path, DiffKind::Modified, e.meta)] + deletions_in(e.covered@, path)
            } else {
                seq![change_at(path, DiffKind::Modified, e.meta)]
            },
        }
    }
}

/// What the entries `s` of directory `path` of the upper layer change, in the
/// order in which they were read.
pub open spec fn changes_in(s: Seq<LayerEntry>, path: Seq<char>, replaced: bool) -> Seq<Change>
    decreases s,
{
    if s.len() == 0 {
        Seq::empty()
    } else {
        changes_in(s.drop_last(), path, replaced) + changes(
            s.last(),
            below(path, text::lossy_utf8(s.last().name@)),
            replaced,
        )
    }
}

/// The first failure met while walking `e`.
pub open spec fn walk_failure(e: LayerEntry, replaced: bool) -> Option<IoFailure>
    decreases e,
{
    if whiteout(e.meta) || e.meta.kind != FileKind::Dir {
        if is_base_dir(e.base) {
            first_of(loss_failure_in(e.covered@), e.covered_failure)
        } else {
            None
        }
    } else {
        let marks = if is_base_dir(e.base) {
            match opaque(e.trusted_opaque, e.user_opaque) {
                Err(f) => Some(f),
                Ok(o) => if o || replaced {
                    first_of(shadow_failure(e.covered@, e.children@), e.covered_failure)
                } else {
                    None
                },
            }
        } else {
            None
        };
        let inside = walk_failure_in(
            e.children@,
            hides_base(e.base, e.trusted_opaque, e.user_opaque, replaced),
        );
        first_of(marks, first_of(inside, e.failure))
    }
}

/// The first failure met while walking the entries `s`.
pub open spec fn walk_failure_in(s: Seq<LayerEntry>, replaced: bool) -> Option<IoFailure>
    decreases s,
{
    if s.len() == 0 {
        None
    } else {
        first_of(walk_failure_in(s.drop_last(), replaced), walk_failure(s.last(), replaced))
    }
}

proof fn lemma_walk_failure_stays(s: Seq<LayerEntry>, replaced: bool, n: int)
    requires
        0 <= n <= s.len(),
        walk_failure_in(s.take(n), replaced) is Some,
    ensures
        walk_failure_in(s, replaced) == walk_failure_in(s.take(n), replaced),
    decreases s.len() - n,
{
    if n < s.len() {
        assert(s.take(n + 1).drop_last() =~= s.take(n));
        lemma_walk_failure_stays(s, replaced, n + 1);
    } else {
        assert(s.take(n) =~= s);
    }
}

proof fn lemma_shadow_failure_stays(s: Seq<BaseEntry>, kept: Seq<LayerEntry>, n: int)
    requires
        0 <= n <= s.len(),
        shadow_failure(s.take(n), kept) is Some,
    ensures
        shadow_failure(s, kept) == shadow_failure(s.take(n), kept),
    decreases s.len() - n,
{
    if n < s.len() {
        assert(s.take(n + 1).drop_last() =~= s.take(n));
        lemma_shadow_failure_stays(s, kept, n + 1);
    } else {
        assert(s.take(n) =~= s);
    }
}

fn same_bytes(a: &Vec<u8>, b: &Vec<u8>) -> (r: bool)
    ensures
        r == (a@ == b@),
{
    if a.len() != b.len() {
        return false;
    }
    let mut i: usize = 0;
    while i < a.len()
        invariant
            i <= a@.len(),
            a@.len() == b@.len(),
            forall|k: int| 0 <= k < i ==> a@[k] == b@[k],
        decreases a@.len() - i,
    {
        if a[i] != b[i] {
            return false;
        }
        i += 1;
    }
    assert(a@ =~= b@);
    true
}

fn names_contain(list: &Vec<LayerEntry>, name: &Vec<u8>) -> (r: bool)
    ensures
        r == has_name(list@, name@),
{
    let mut i: usize = 0;
    while i < list.len()
        invariant
            i <= list@.len(),
            forall|k: int| 0 <= k < i ==> (#[trigger] list@[k]).name@ != name@,
        decreases list@.len() - i,
    {
        if same_bytes(&list[i].name, name) {
            return true;
        }
        i += 1;
    }
    false
}

/// For a directory that replaces the base's: reports as deleted every base entry that the
/// upper directory has no entry for at all. (Base entries that the upper
/// whites out or replaces are reported by the walk.)
fn report_shadowed(
    list: &Vec<BaseEntry>,
    failure: &Option<IoFailure>,
    kept: &Vec<LayerEntry>,
    path: &str,
    out: &mut Vec<DiffEntry>,
) -> (r: Result<(), IoFailure>)
    ensures
        r matches Err(f) ==> first_of(shadow_failure(list@, kept@), *failure) == Some(f),
        r is Ok ==> first_of(shadow_failure(list@, kept@), *failure) is None && facts(final(out)@)
            == facts(old(out)@) + shadowed(list@, kept@, path@),
{
    let mut i: usize = 0;
    assert(list@.take(0) =~= Seq::<BaseEntry>::empty());
    assert(facts(out@) =~= facts(old(out)@) + shadowed(list@.take(0), kept@, path@));
    while i < list.len()
        invariant
            i <= list@.len(),
            shadow_failure(list@.take(i as int), kept@) is None,
            facts(out@) == facts(old(out)@) + shadowed(list@.take(i as int), kept@, path@),
        decreases list@.len() - i,
    {
        let ghost next = list@.take(i + 1);
        proof {
            assert(next.drop_last() =~= list@.take(i as int));
            assert(next.last() == list@[i as int]);
        }
        if !names_contain(kept, &list[i].name) {
            let name: String = from_utf8_lossy(list[i].name.as_slice());
            let p: String = join_rel(path, name.as_str());
            match push_deleted(&list[i], p.as_str(), out) {
                Ok(()) => {},
                Err(f) => {
                    proof {
                        lemma_shadow_failure_stays(list@, kept@, i + 1);
                    }
                    return Err(f);
                },
            }
        }
        assert(facts(out@) =~= facts(old(out)@) + shadowed(next, kept@, path@));
        i += 1;
    }
    assert(list@.take(i as int) =~= list@);
    match failure {
        Some(f) => Err(f.duplicate()),
        None => Ok(()),
    }
}

fn push_change(path: &str, kind: DiffKind, m: &FileMeta, out: &mut Vec<DiffEntry>)
    ensures
        facts(final(out)@) == facts(old(out)@).push(change_at(path@, kind, *m)),
{
    let e: DiffEntry = entry_for(path, kind, m);
    proof {
        lemma_facts_push(out@, e);
    }
    out.push(e);
}

/// Reports what the entry `e` at `path` changes.
fn walk_entry(
    e: &LayerEntry,
    path: &str,
    replaced: bool,
    out: &mut Vec<DiffEntry>,
) -> (r: Result<(), IoFailure>)
    ensures
        r matches Err(f) ==> walk_failure(*e, replaced) == Some(f),
        r is Ok ==> walk_failure(*e, replaced) is None && facts(final(out)@) == facts(old(out)@)
            + changes(*e, path@, replaced),
    decreases e,
{
    let ghost start = facts(out@);
    if is_whiteout(&e.meta) {
        match &e.base {
            None => {
                assert(facts(out@) =~= start + changes(*e, path@, replaced));
            },
            Some(b) => {
                push_change(path, DiffKind::Deleted, b, out);
                if b.kind == FileKind::Dir {
                    match push_deleted_in(&e.covered, &e.covered_failure, path, out) {
                        Ok(()) => {},
                        Err(f) => {
                            return Err(f);
                        },
                    }
                }
                assert(facts(out@) =~= start + changes(*e, path@, replaced));
            },
        }
        return Ok(());
    }
    if e.meta.kind == FileKind::Dir {
        match &e.base {
            None => {
                push_change(path, DiffKind::Added, &e.meta, out);
            },
            Some(b) => {
                if b.kind != FileKind::Dir {
                    push_change(path, DiffKind::Modified, &e.meta, out);
                } else {
                    match is_opaque(&e.trusted_opaque, &e.user_opaque) {
                        Err(f) => {
                            return Err(f);
                        },
                        Ok(o) => {
                            if o || replaced {
                                match report_shadowed(
                                    &e.covered,
                                    &e.covered_failure,
                                    &e.children,
                                    path,
                                    out,
                                ) {
                                    Ok(()) => {},
                                    Err(f) => {
                                        return Err(f);
                                    },
                                }
                            }
                        },
                    }
                }
            },
        }
        let inside: bool = children_replaced(&e.base, &e.trusted_opaque, &e.user_opaque, replaced);
        match walk(&e.children, &e.failure, path, inside, out) {
            Ok(()) => {},
            Err(f) => {
                return Err(f);
            },
        }
        assert(facts(out@) =~= start + changes(*e, path@, replaced));
        Ok(())
    } else {
        match &e.base {
            None => {
                push_change(path, DiffKind::Added, &e.meta, out);
            },
            Some(b) => {
                push_change(path, DiffKind::Modified, &e.meta, out);
                if b.kind == FileKind::Dir {
                    match push_deleted_in(&e.covered, &e.covered_failure, path, out) {
                        Ok(()) => {},
                        Err(f) => {
                            return Err(f);
                        },
                    }
                }
            },
        }
        assert(facts(out@) =~= start + changes(*e, path@, replaced));
        Ok(())
    }
}

/// Reports what the entries `list` of directory `path` change, then the
/// failure that ended the reading of that directory, if any.
fn walk(
    list: &Vec<LayerEntry>,
    failure: &Option<IoFailure>,
    path: &str,
    replaced: bool,
    out: &mut Vec<DiffEntry>,
) -> (r: Result<(), IoFailure>)
    ensures
        r matches Err(f) ==> first_of(walk_failure_in(list@, replaced), *failure) == Some(f),
        r is Ok ==> first_of(walk_failure_in(list@, replaced), *failure) is None && facts(
            final(out)@,
        ) == facts(old(out)@) + changes_in(list@, path@, replaced),
    decreases list,
{
    let mut i: usize = 0;
    assert(list@.take(0) =~= Seq::<LayerEntry>::empty());
    assert(facts(out@) =~= facts(old(out)@) + changes_in(list@.take(0), path@, replaced));
    while i < list.len()
        invariant
            i <= list@.len(),
            walk_failure_in(list@.take(i as int), replaced) is None,
            facts(out@) == facts(old(out)@) + changes_in(list@.take(i as int), path@, replaced),
        decreases list@.len() - i,
    {
        let ghost next = list@.take(i + 1);
        proof {
            assert(next.drop_last() =~= list@.take(i as int));
            assert(next.last() == list@[i as int]);
        }
        let name: String = from_utf8_lossy(list[i].name.as_slice());
        let p: String = join_rel(path, name.as_str());
        match walk_entry(&list[i], p.as_str(), replaced, out) {
            Ok(()) => {},
            Err(f) => {
                proof {
                    lemma_walk_failure_stays(list@, replaced, i + 1);
                }
                return Err(f);
            },
        }
        assert(facts(out@) =~= facts(old(out)@) + changes_in(next, path@, replaced));
        i += 1;
    }
    assert(list@.take(i as int) =~= list@);
    match failure {
        Some(f) => Err(f.duplicate()),
        None => Ok(()),
    }
}

// --- order of the report -----------------------------------------------------

/// The changes come in the order of their paths.
pub open spec fn by_path(s: Seq<Change>) -> bool {
    forall|i: int, j: int|
        0 <= i <= j < s.len() ==> text::at_most((#[trigger] s[i]).path, (#[trigger] s[j]).path)
}

/// Those of the changes `s` that are at `path`, in their order.
pub open spec fn at_path(s: Seq<Change>, path: Seq<char>) -> Seq<Change>
    decreases s.len(),
{
    if s.len() == 0 {
        Seq::empty()
    } else if s.last().path == path {
        at_path(s.drop_last(), path).push(s.last())
    } else {
        at_path(s.drop_last(), path)
    }
}

/// `t` holds exactly the changes of `s`, and changes at one path keep their
/// order.
pub open spec fn rearranged(s: Seq<Change>, t: Seq<Change>) -> bool {
    forall|path: Seq<char>| #[trigger] at_path(t, path) == at_path(s, path)
}

proof fn lemma_at_path_concat(s: Seq<Change>, t: Seq<Change>, path: Seq<char>)
    ensures
        at_path(s + t, path) == at_path(s, path) + at_path(t, path),
    decreases t.len(),
{
    if t.len() == 0 {
        assert(s + t =~= s);
        assert(at_path(s, path) + at_path(t, path) =~= at_path(s, path));
    } else {
        assert((s + t).drop_last() =~= s + t.drop_last());
        lemma_at_path_concat(s, t.drop_last(), path);
        assert(at_path(s + t, path) =~= at_path(s, path) + at_path(t, path));
    }
}

proof fn lemma_at_path_absent(s: Seq<Change>, path: Seq<char>)
    requires
        forall|i: int| 0 <= i < s.len() ==> (#[trigger] s[i]).path != path,
    ensures
        at_path(s, path) == Seq::<Change>::empty(),
    decreases s.len(),
{
    if s.len() > 0 {
        assert(s.last().path != path);
        assert forall|i: int| 0 <= i < s.drop_last().len() implies (#[trigger] s.drop_last()[i]).path
            != path by {
            assert(s.drop_last()[i] == s[i]);
        }
        lemma_at_path_absent(s.drop_last(), path);
    }
}

/// The changes `a`, `b` and, reversed, `out` stand for `all`.
spec fn merging(a: Seq<Change>, b: Seq<Change>, out: Seq<Change>, all: Seq<Change>) -> bool {
    forall|path: Seq<char>|
        #[trigger] at_path(all, path) == at_path(a, path) + at_path(b, path) + at_path(
            out.reverse(),
            path,
        )
}

/// No change of `s` comes after one of `out`.
spec fn before_all(s: Seq<Change>, out: Seq<Change>) -> bool {
    forall|i: int, j: int|
        0 <= i < s.len() && 0 <= j < out.len() ==> text::at_most(
            (#[trigger] s[i]).path,
            (#[trigger] out[j]).path,
        )
}

proof fn lemma_by_path_prefix(s: Seq<Change>)
    requires
        s.len() > 0,
        by_path(s),
    ensures
        by_path(s.drop_last()),
        before_all(s.drop_last(), seq![s.last()]),
{
    assert forall|i: int, j: int| 0 <= i <= j < s.drop_last().len() implies text::at_most(
        (#[trigger] s.drop_last()[i]).path,
        (#[trigger] s.drop_last()[j]).path,
    ) by {
        assert(s.drop_last()[i] == s[i] && s.drop_last()[j] == s[j]);
    }
    assert forall|i: int, j: int|
        0 <= i < s.drop_last().len() && 0 <= j < seq![s.last()].len() implies text::at_most(
        (#[trigger] s.drop_last()[i]).path,
        (#[trigger] seq![s.last()][j]).path,
    ) by {
        assert(s.drop_last()[i] == s[i]);
        assert(s[s.len() - 1] == s.last());
    }
}

/// Taking the last of `a`, which comes after everything in `b`.
proof fn lemma_merge_first(a: Seq<Change>, b: Seq<Change>, out: Seq<Change>, all: Seq<Change>)
    requires
        a.len() > 0,
        by_path(b),
        b.len() > 0 ==> !text::at_most(a.last().path, b.last().path),
        merging(a, b, out, all),
    ensures
        merging(a.drop_last(), b, out.push(a.last()), all),
{
    let x = a.last();
    assert forall|path: Seq<char>| #[trigger] at_path(all, path) == at_path(a.drop_last(), path)
        + at_path(b, path) + at_path(out.push(x).reverse(), path) by {
        assert(out.push(x).reverse() =~= seq![x] + out.reverse());
        lemma_at_path_concat(seq![x], out.reverse(), path);
        assert(seq![x].drop_last() =~= Seq::<Change>::empty());
        reveal_with_fuel(at_path, 2);
        if x.path == path {
            assert forall|i: int| 0 <= i < b.len() implies (#[trigger] b[i]).path != path by {
                assert(text::at_most(b[i].path, b[b.len() - 1].path));
            }
            lemma_at_path_absent(b, path);
        }
        assert(at_path(all, path) =~= at_path(a.drop_last(), path) + at_path(b, path) + at_path(
            out.push(x).reverse(),
            path,
        ));
    }
}

/// Taking the last of `b`.
proof fn lemma_merge_second(a: Seq<Change>, b: Seq<Change>, out: Seq<Change>, all: Seq<Change>)
    requires
        b.len() > 0,
        merging(a, b, out, all),
    ensures
        merging(a, b.drop_last(), out.push(b.last()), all),
{
    let x = b.last();
    assert forall|path: Seq<char>| #[trigger] at_path(all, path) == at_path(a, path) + at_path(
        b.drop_last(),
        path,
    ) + at_path(out.push(x).reverse(), path) by {
        assert(out.push(x).reverse() =~= seq![x] + out.reverse());
        lemma_at_path_concat(seq![x], out.reverse(), path);
        assert(seq![x].drop_last() =~= Seq::<Change>::empty());
        reveal_with_fuel(at_path, 2);
        assert(at_path(all, path) =~= at_path(a, path) + at_path(b.drop_last(), path) + at_path(
            out.push(x).reverse(),
            path,
        ));
    }
}

/// Both lists, each in path order, as one list in path order; at one path the
/// changes of `a` come first.
fn merged(a: Vec<DiffEntry>, b: Vec<DiffEntry>) -> (r: Vec<DiffEntry>)
    requires
        by_path(facts(a@)),
        by_path(facts(b@)),
    ensures
        by_path(facts(r@)),
        rearranged(facts(a@) + facts(b@), facts(r@)),
{
    let ghost all = facts(a@) + facts(b@);
    let mut x: Vec<DiffEntry> = a;
    let mut y: Vec<DiffEntry> = b;
    let mut out: Vec<DiffEntry> = Vec::new();
    proof {
        assert forall|path: Seq<char>| #[trigger] at_path(all, path) == at_path(facts(x@), path)
            + at_path(facts(y@), path) + at_path(facts(out@).reverse(), path) by {
            lemma_at_path_concat(facts(a@), facts(b@), path);
            assert(facts(out@).reverse() =~= Seq::<Change>::empty());
            assert(at_path(all, path) =~= at_path(facts(x@), path) + at_path(facts(y@), path)
                + at_path(facts(out@).reverse(), path));
        }
        assert(facts(out@).reverse() =~= Seq::<Change>::empty());
    }
    while x.len() > 0 || y.len() > 0
        invariant
            by_path(facts(x@)),
            by_path(facts(y@)),
            by_path(facts(out@).reverse()),
            before_all(facts(x@), facts(out@)),
            before_all(facts(y@), facts(out@)),
            merging(facts(x@), facts(y@), facts(out@), all),
        decreases x@.len() + y@.len(),
    {
        let first: bool = if x.len() == 0 {
            false
        } else if y.len() == 0 {
            true
        } else {
            !in_order(x[x.len() - 1].path.as_str(), y[y.len() - 1].path.as_str())
        };
        let ghost fx = facts(x@);
        let ghost fy = facts(y@);
        let ghost fo = facts(out@);
        if first {
            match x.pop() {
                Some(e) => {
                    proof {
                        lemma_merge_first(fx, fy, fo, all);
                        lemma_by_path_prefix(fx);
                        lemma_facts_push(out@, e);
                        assert(facts(x@) =~= fx.drop_last());
                        assert(e@ == fx.last());
                        if fy.len() > 0 {
                            text::lemma_at_most_total(fy.last().path, e@.path);
                        }
                        lemma_grown(fx.drop_last(), fy, fo, e@);
                    }
                    out.push(e);
                },
                None => {},
            }
        } else {
            match y.pop() {
                Some(e) => {
                    proof {
                        lemma_merge_second(fx, fy, fo, all);
                        lemma_by_path_prefix(fy);
                        lemma_facts_push(out@, e);
                        assert(facts(y@) =~= fy.drop_last());
                        assert(e@ == fy.last());
                        lemma_grown(fy.drop_last(), fx, fo, e@);
                    }
                    out.push(e);
                },
                None => {},
            }
        }
    }
    let ghost fo = facts(out@);
    let r: Vec<DiffEntry> = reversed(out);
    proof {
        assert(facts(r@) =~= fo.reverse());
        assert forall|path: Seq<char>| #[trigger] at_path(facts(r@), path) == at_path(all, path) by {
            assert(facts(x@) =~= Seq::<Change>::empty());
            assert(facts(y@) =~= Seq::<Change>::empty());
            assert(at_path(all, path) =~= at_path(fo.reverse(), path));
        }
    }
    r
}

/// What taking the change `c` out of `rest.push(c)`, and putting it behind
/// `out`, leaves in order.
proof fn lemma_grown(rest: Seq<Change>, other: Seq<Change>, out: Seq<Change>, c: Change)
    requires
        by_path(rest.push(c)),
        by_path(other),
        by_path(out.reverse()),
        before_all(rest.push(c), out),
        before_all(other, out),
        other.len() > 0 ==> text::at_most(other.last().path, c.path),
    ensures
        by_path(out.push(c).reverse()),
        before_all(rest, out.push(c)),
        before_all(other, out.push(c)),
{
    let w = out.push(c);
    let n = out.len() as int;
    let rc = rest.push(c);
    assert forall|i: int, j: int| 0 <= i < rest.len() && 0 <= j < w.len() implies text::at_most(
        (#[trigger] rest[i]).path,
        (#[trigger] w[j]).path,
    ) by {
        assert(rc[i] == rest[i]);
        if j < n {
            assert(w[j] == out[j]);
        } else {
            assert(rc[rest.len() as int] == c);
        }
    }
    assert forall|i: int, j: int| 0 <= i < other.len() && 0 <= j < w.len() implies text::at_most(
        (#[trigger] other[i]).path,
        (#[trigger] w[j]).path,
    ) by {
        if j < n {
            assert(w[j] == out[j]);
        } else {
            assert(text::at_most(other[i].path, other[other.len() - 1].path));
            text::lemma_at_most_transitive(other[i].path, other.last().path, c.path);
        }
    }
    assert forall|i: int, j: int| 0 <= i <= j < w.reverse().len() implies text::at_most(
        (#[trigger] w.reverse()[i]).path,
        (#[trigger] w.reverse()[j]).path,
    ) by {
        assert(rc[rest.len() as int] == c);
        if i == 0 {
            if j == 0 {
                text::lemma_at_most_total(c.path, c.path);
            } else {
                assert(w.reverse()[j] == out[n - j]);
            }
        } else {
            assert(w.reverse()[i] == out.reverse()[i - 1]);
            assert(w.reverse()[j] == out.reverse()[j - 1]);
        }
    }
}

/// The changes in path order; at one path they keep their order.
fn arranged(list: Vec<DiffEntry>) -> (r: Vec<DiffEntry>)
    ensures
        by_path(facts(r@)),
        rearranged(facts(list@), facts(r@)),
    decreases list@.len(),
{
    if list.len() < 2 {
        proof {
            if list@.len() == 1 {
                text::lemma_at_most_total(facts(list@)[0].path, facts(list@)[0].path);
            }
        }
        return list;
    }
    let ghost whole = list@;
    let half: usize = list.len() / 2;
    let mut left: Vec<DiffEntry> = list;
    let mut right: Vec<DiffEntry> = Vec::new();
    assert(whole.take(whole.len() as int) =~= whole);
    assert(right@ =~= whole.skip(whole.len() as int).reverse());
    while left.len() > half
        invariant
            1 <= half < whole.len(),
            half <= left@.len() <= whole.len(),
            left@ == whole.take(left@.len() as int),
            right@ == whole.skip(left@.len() as int).reverse(),
        decreases left@.len(),
    {
        let ghost n = left@.len() as int;
        match left.pop() {
            Some(e) => {
                right.push(e);
                assert(left@ =~= whole.take(n - 1));
                assert(right@ =~= whole.skip(n - 1).reverse());
            },
            None => {},
        }
    }
    let right: Vec<DiffEntry> = reversed(right);
    assert(right@ =~= whole.skip(half as int));
    let ghost fl = facts(left@);
    let ghost fr = facts(right@);
    assert(fl + fr =~= facts(whole));
    let a: Vec<DiffEntry> = arranged(left);
    let b: Vec<DiffEntry> = arranged(right);
    let r: Vec<DiffEntry> = merged(a, b);
    proof {
        assert forall|path: Seq<char>|
            #[trigger] at_path(facts(r@), path) == at_path(facts(whole), path) by {
            lemma_at_path_concat(facts(a@), facts(b@), path);
            lemma_at_path_concat(fl, fr, path);
        }
    }
    r
}

// --- the diff ----------------------------------------------------------------

/// Every path that the layer adds, modifies or deletes relative to the base
/// image, in path order.
pub fn diff_upper(layer: &Layer) -> (r: Result<Vec<DiffEntry>, Error>)
    ensures
        match first_of(walk_failure_in(layer.children@, false), layer.failure) {
            Some(f) => r matches Err(e) && e.is_io("diff upper layer"@, f),
            None => r matches Ok(v) && by_path(facts(v@)) && rearranged(
                changes_in(layer.children@, Seq::empty(), false),
                facts(v@),
            ),
        },
        r matches Ok(v) ==> forall|i: int, j: int|
            0 <= i <= j < v@.len() ==> text::at_most(
                (#[trigger] v@[i]).path@,
                (#[trigger] v@[j]).path@,
            ),
        r is Ok <==> layer.failure is None && forall|k: int|
            0 <= k < layer.children@.len() ==> walk_failure(#[trigger] layer.children@[k], false) is None,
{
    proof {
        law_first_failure_ends_the_walk(layer.children@, false);
    }
    let mut out: Vec<DiffEntry> = Vec::new();
    match walk(&layer.children, &layer.failure, "", false, &mut out) {
        Ok(()) => {},
        Err(f) => {
            return Err(Error::io("diff upper layer", f));
        },
    }
    proof {
        reveal_strlit("");
        assert(""@ =~= Seq::<char>::empty());
        assert(facts(out@) =~= changes_in(layer.children@, Seq::empty(), false));
    }
    let sorted: Vec<DiffEntry> = arranged(out);
    proof {
        let all = facts(sorted@);
        assert forall|i: int, j: int| 0 <= i <= j < sorted@.len() implies text::at_most(
            (#[trigger] sorted@[i]).path@,
            (#[trigger] sorted@[j]).path@,
        ) by {
            assert(text::at_most(all[i].path, all[j].path));
        }
    }
    Ok(sorted)
}

// --- laws --------------------------------------------------------------------

/// Nothing but directories that the base image has too, and that are merged
/// with the base's.
pub open spec fn structure_only(s: Seq<LayerEntry>) -> bool
    decreases s,
{
    if s.len() == 0 {
        true
    } else {
        let e = s.last();
        structure_only(s.drop_last()) && e.meta.kind == FileKind::Dir && (e.base matches Some(b)
            && b.kind == FileKind::Dir) && opaque(e.trusted_opaque, e.user_opaque) == Ok::<
            bool,
            IoFailure,
        >(false) && structure_only(e.children@)
    }
}

/// Directories on both sides are traversal structure: a layer of nothing else
/// has no changes, however deep.
pub proof fn law_structure_is_no_change(s: Seq<LayerEntry>, path: Seq<char>)
    requires
        structure_only(s),
    ensures
        changes_in(s, path, false) == Seq::<Change>::empty(),
    decreases s,
{
    if s.len() > 0 {
        let e = s.last();
        let p = below(path, text::lossy_utf8(e.name@));
        law_structure_is_no_change(s.drop_last(), path);
        law_structure_is_no_change(e.children@, p);
        assert(changes(e, p, false) =~= Seq::<Change>::empty());
        assert(changes_in(s, path, false) =~= Seq::<Change>::empty());
    }
}

/// A whiteout reports nothing but deletions, the deleted path first; over
/// nothing it reports nothing.
pub proof fn law_whiteout_deletes(e: LayerEntry, path: Seq<char>, replaced: bool)
    requires
        whiteout(e.meta),
    ensures
        e.base is None ==> changes(e, path, replaced).len() == 0,
        e.base matches Some(b) ==> changes(e, path, replaced).len() >= 1 && changes(e, path, replaced)[0] == change_at(
            path,
            DiffKind::Deleted,
            b,
        ),
        forall|i: int|
            0 <= i < changes(e, path, replaced).len() ==> (#[trigger] changes(e, path, replaced)[i]).kind
                == DiffKind::Deleted,
{
    if let Some(b) = e.base {
        lemma_deletions_delete_in(e.covered@, path);
        let own = seq![change_at(path, DiffKind::Deleted, b)];
        assert forall|i: int| 0 <= i < changes(e, path, replaced).len() implies (
        #[trigger] changes(e, path, replaced)[i]).kind == DiffKind::Deleted by {
            if i > 0 {
                assert(changes(e, path, replaced)[i] == deletions_in(e.covered@, path)[i - 1]);
            }
        }
    }
}

pub proof fn lemma_deletions_delete(e: BaseEntry, path: Seq<char>)
    ensures
        forall|i: int|
            0 <= i < deletions(e, path).len() ==> (#[trigger] deletions(e, path)[i]).kind
                == DiffKind::Deleted,
    decreases e,
{
    if e.meta.kind == FileKind::Dir {
        lemma_deletions_delete_in(e.children@, path);
        assert forall|i: int| 0 <= i < deletions(e, path).len() implies (
        #[trigger] deletions(e, path)[i]).kind == DiffKind::Deleted by {
            if i > 0 {
                assert(deletions(e, path)[i] == deletions_in(e.children@, path)[i - 1]);
            }
        }
    }
}

pub proof fn lemma_deletions_delete_in(s: Seq<BaseEntry>, path: Seq<char>)
    ensures
        forall|i: int|
            0 <= i < deletions_in(s, path).len() ==> (#[trigger] deletions_in(s, path)[i]).kind
                == DiffKind::Deleted,
    decreases s,
{
    if s.len() > 0 {
        let e = s.last();
        let p = below(path, text::lossy_utf8(e.name@));
        let rest = deletions_in(s.drop_last(), path);
        lemma_deletions_delete_in(s.drop_last(), path);
        lemma_deletions_delete(e, p);
        assert forall|i: int| 0 <= i < deletions_in(s, path).len() implies (
        #[trigger] deletions_in(s, path)[i]).kind == DiffKind::Deleted by {
            if i < rest.len() {
                assert(deletions_in(s, path)[i] == rest[i]);
            } else {
                assert(deletions_in(s, path)[i] == deletions(e, p)[i - rest.len()]);
            }
        }
    }
}

/// A directory over nothing is added, one over anything but a directory is a
/// modification, and what lies in it is reported too; one that is merged with
/// the base's changes what its entries change, and nothing else.
pub proof fn law_directories_are_reported(e: LayerEntry, path: Seq<char>, replaced: bool)
    requires
        e.meta.kind == FileKind::Dir,
    ensures
        e.base is None ==> changes(e, path, replaced) == seq![
            change_at(path, DiffKind::Added, e.meta),
        ] + changes_in(e.children@, path, replaced),
        (e.base matches Some(b) && b.kind != FileKind::Dir) ==> changes(e, path, replaced) == seq![
            change_at(path, DiffKind::Modified, e.meta),
        ] + changes_in(e.children@, path, replaced),
        (e.base matches Some(b) && b.kind == FileKind::Dir) && opaque(
            e.trusted_opaque,
            e.user_opaque,
        ) == Ok::<bool, IoFailure>(false) && !replaced ==> changes(e, path, replaced) == changes_in(
            e.children@,
            path,
            false,
        ),
{
    let inner = changes_in(e.children@, path, false);
    assert(Seq::<Change>::empty() + inner =~= inner);
}

/// The walk over entries fails just where it fails on one of them, and with the
/// failure of the first.
pub proof fn law_first_failure_ends_the_walk(s: Seq<LayerEntry>, replaced: bool)
    ensures
        walk_failure_in(s, replaced) is None <==> forall|k: int|
            0 <= k < s.len() ==> walk_failure(#[trigger] s[k], replaced) is None,
        walk_failure_in(s, replaced) is Some ==> exists|k: int|
            0 <= k < s.len() && walk_failure(#[trigger] s[k], replaced) == walk_failure_in(
                s,
                replaced,
            ) && forall|j: int|
                0 <= j < k ==> walk_failure(#[trigger] s[j], replaced) is None,
    decreases s.len(),
{
    if s.len() > 0 {
        let front = s.drop_last();
        let n = s.len() - 1;
        law_first_failure_ends_the_walk(front, replaced);
        assert forall|k: int| 0 <= k < n implies front[k] == #[trigger] s[k] by {}
        if walk_failure_in(front, replaced) is Some {
            let k = choose|k: int|
                0 <= k < front.len() && walk_failure(#[trigger] front[k], replaced)
                    == walk_failure_in(front, replaced) && forall|j: int|
                    0 <= j < k ==> walk_failure(#[trigger] front[j], replaced) is None;
            assert(walk_failure(s[k], replaced) == walk_failure_in(s, replaced));
            assert forall|j: int| 0 <= j < k implies walk_failure(#[trigger] s[j], replaced) is None by {
                assert(walk_failure(front[j], replaced) is None);
            }
        } else {
            assert forall|j: int| 0 <= j < n implies walk_failure(#[trigger] s[j], replaced) is None by {
                assert(walk_failure(front[j], replaced) is None);
            }
            assert(walk_failure(s[n], replaced) == walk_failure_in(s, replaced));
        }
    }
}

/// Reading what was lost fails just where a directory of it could not be read
/// to its end.
pub proof fn law_loss_needs_every_directory(e: BaseEntry, s: Seq<BaseEntry>)
    ensures
        loss_failure(e) is Some <==> e.meta.kind == FileKind::Dir && (e.failure is Some
            || loss_failure_in(e.children@) is Some),
        loss_failure_in(s) is Some <==> exists|k: int|
            0 <= k < s.len() && loss_failure(#[trigger] s[k]) is Some,
    decreases s.len(),
{
    if s.len() > 0 {
        let front = s.drop_last();
        let n = s.len() - 1;
        law_loss_needs_every_directory(e, front);
        assert forall|k: int| 0 <= k < n implies front[k] == #[trigger] s[k] by {}
        if loss_failure_in(front) is Some {
            let k = choose|k: int| 0 <= k < front.len() && loss_failure(#[trigger] front[k]) is Some;
            assert(loss_failure(s[k]) is Some);
        } else if loss_failure(s.last()) is Some {
            assert(loss_failure(s[n]) is Some);
        } else {
            assert forall|k: int| 0 <= k < s.len() implies loss_failure(#[trigger] s[k]) is None by {
                if k < n {
                    assert(loss_failure(front[k]) is None);
                }
            }
        }
    }
}

/// Looking into the base below a directory that replaces it fails just where an
/// entry without a namesake could not be read.
pub proof fn law_shadow_needs_every_directory(s: Seq<BaseEntry>, kept: Seq<LayerEntry>)
    ensures
        shadow_failure(s, kept) is Some <==> exists|k: int|
            0 <= k < s.len() && loss_failure(#[trigger] s[k]) is Some && forall|j: int|
                0 <= j < kept.len() ==> (#[trigger] kept[j]).name@ != s[k].name@,
    decreases s.len(),
{
    if s.len() > 0 {
        let front = s.drop_last();
        let n = s.len() - 1;
        law_shadow_needs_every_directory(front, kept);
        assert forall|k: int| 0 <= k < n implies front[k] == #[trigger] s[k] by {}
        if shadow_failure(front, kept) is Some {
            let k = choose|k: int|
                0 <= k < front.len() && loss_failure(#[trigger] front[k]) is Some && forall|j: int|
                    0 <= j < kept.len() ==> (#[trigger] kept[j]).name@ != front[k].name@;
            assert(loss_failure(s[k]) is Some);
        } else if !has_name(kept, s.last().name@) && loss_failure(s.last()) is Some {
            assert(loss_failure(s[n]) is Some);
        } else {
            assert forall|k: int|
                0 <= k < s.len() && loss_failure(#[trigger] s[k]) is Some implies exists|j: int|
                0 <= j < kept.len() && (#[trigger] kept[j]).name@ == s[k].name@ by {
                if k < n {
                    assert(loss_failure(front[k]) is Some);
                }
            }
        }
    }
}

/// The walk over one entry fails just where something that it needs could not be
/// read: the marks of a directory over a directory, what that directory holds,
/// or what the base has there, if that is gone.
pub proof fn law_nothing_unread_is_passed_over(e: LayerEntry, replaced: bool)
    ensures
        e.meta.kind != FileKind::Dir ==> (walk_failure(e, replaced) is Some <==> (
        e.base matches Some(b) && b.kind == FileKind::Dir) && (loss_failure_in(e.covered@) is Some
            || e.covered_failure is Some)),
        e.meta.kind == FileKind::Dir ==> (walk_failure(e, replaced) is Some <==> e.failure is Some
            || walk_failure_in(
            e.children@,
            hides_base(e.base, e.trusted_opaque, e.user_opaque, replaced),
        ) is Some || ((e.base matches Some(b) && b.kind == FileKind::Dir) && (opaque(
            e.trusted_opaque,
            e.user_opaque,
        ) is Err || (opaque(e.trusted_opaque, e.user_opaque) matches Ok(o) && (o || replaced) && (
        shadow_failure(e.covered@, e.children@) is Some || e.covered_failure is Some))))),
{
}

/// A file of the layer is always reported: as added where the base has nothing
/// there, else as modified.
pub proof fn law_files_are_reported(e: LayerEntry, path: Seq<char>, replaced: bool)
    requires
        !whiteout(e.meta),
        e.meta.kind != FileKind::Dir,
    ensures
        changes(e, path, replaced).len() >= 1,
        changes(e, path, replaced)[0] == change_at(
            path,
            if e.base is None {
                DiffKind::Added
            } else {
                DiffKind::Modified
            },
            e.meta,
        ),
{
}

} // verus!
