//! Taking snapshots, and starting from them.
//!
//! A snapshot captures files, not processes: it is a copy of the sandbox's
//! writable layer, made while the sandbox is frozen.

use vstd::prelude::*;

use crate::error::{Error, IoFailure, IoKind, ResourceKind};
use crate::layout::upper_dir;
use crate::limits;
use crate::limits::ResourceLimits;
use crate::paths;
use crate::registry;
use crate::registry::Registry;
use crate::spawn;
use crate::sql;
use crate::text;
use crate::text::{copied, trim};
use crate::types;
use crate::types::{
    Sandbox, SandboxFacts, SandboxId, SandboxSpec, SnapshotFacts, SnapshotId, SnapshotMeta,
};

verus! {

/// A snapshot has a name.
pub fn check_name(name: &str) -> (r: Result<(), Error>)
    ensures
        if text::trimmed(name@).len() == 0 {
            r matches Err(e) && e.is_invalid_spec("snapshot name must not be empty"@)
        } else {
            r is Ok
        },
{
    if trim(name).is_empty() {
        Err(Error::InvalidSpec(copied("snapshot name must not be empty")))
    } else {
        Ok(())
    }
}

/// What is recorded of a snapshot before its layer is copied.
pub fn new_snapshot(
    sb: &Sandbox,
    id: SnapshotId,
    name: &str,
    dir: String,
    created_at: i64,
) -> (r: SnapshotMeta)
    ensures
        r@ == (SnapshotFacts {
            id: id.0@,
            sandbox_id: Some(sb@.id),
            name: name@,
            path: dir@,
            rootfs: sb@.rootfs,
            size_bytes: 0,
            created_at: created_at as int,
        }),
{
    SnapshotMeta {
        id,
        sandbox_id: Some(SandboxId(sb.id.0.clone())),
        name: copied(name),
        path: dir,
        rootfs: sb.rootfs.clone(),
        size_bytes: 0,
        created_at,
    }
}

/// What a failure to create the snapshot's own directory means. A directory
/// that is already there is never used, nor removed.
pub fn dir_failed(id: &SnapshotId, f: IoFailure) -> (r: Error)
    ensures
        if f.kind == IoKind::AlreadyExists {
            r.is_already_exists(ResourceKind::Snapshot, id.0@)
        } else {
            r.is_io("create snapshot dir"@, f)
        },
{
    match f.kind {
        IoKind::AlreadyExists => Error::AlreadyExists {
            kind: ResourceKind::Snapshot,
            id: id.0.clone(),
        },
        _ => Error::io("create snapshot dir", f),
    }
}

/// The cgroup that a sandbox's record names, if any.
pub fn read_cgroup_path(content: Option<&str>) -> (r: Option<String>)
    ensures
        match content {
            Some(c) => if text::trimmed(c@).len() == 0 {
                r is None
            } else {
                r matches Some(p) && p@ == text::trimmed(c@)
            },
            None => r is None,
        },
{
    match content {
        Some(c) => {
            let p: &str = trim(c);
            if p.is_empty() {
                None
            } else {
                Some(copied(p))
            }
        },
        None => None,
    }
}

/// What to start to get a sandbox with a snapshot's files: over the same base
/// image, with no limits, no environment and no network.
pub fn restore_spec(snap: &SnapshotMeta, name: Option<String>) -> (r: SandboxSpec)
    ensures
        r.name == name,
        r.rootfs@ == snap@.rootfs,
        r.from_snapshot matches Some(s) && s.0@ == snap@.id,
        r.limits == limits::no_limits(),
        r.limits.cpu_millis is None && r.limits.memory_bytes is None && r.limits.pids is None,
        r.limits.disk_bytes is None && r.limits.wall_time is None,
        r.env@.len() == 0,
        !r.network,
        !r.allow_host_proc_fallback,
{
    SandboxSpec {
        name,
        rootfs: snap.rootfs.clone(),
        from_snapshot: Some(SnapshotId(snap.id.0.clone())),
        limits: ResourceLimits::unlimited(),
        env: Vec::new(),
        network: false,
        allow_host_proc_fallback: false,
    }
}

/// This is what to start to get a sandbox with the snapshot's files.
pub open spec fn restores(spec: SandboxSpec, snap: SnapshotFacts) -> bool {
    spec.rootfs@ == snap.rootfs && (spec.from_snapshot matches Some(s) && s.0@ == snap.id)
        && spec.limits == limits::no_limits() && spec.env@.len() == 0 && !spec.network
        && !spec.allow_host_proc_fallback
}

/// What to start to get a sandbox with the files of the snapshot that `key`
/// names.
pub fn restore_from(reg: &mut Registry, key: &str, name: Option<String>) -> (r: Result<
    SandboxSpec,
    Error,
>)
    ensures
        final(reg).same_kind(*old(reg)),
        old(reg).found(final(reg).tables()),
        match r {
            Ok(spec) => spec.name == name && exists|f: SnapshotFacts| #[trigger]
                final(reg).finds_snapshot(key@, f) && restores(spec, f),
            Err(e) => e is Registry || (e.is_not_found(ResourceKind::Snapshot, key@)
                && final(reg).lacks_snapshot(key@)),
        },
        r matches Ok(spec) ==> spec.limits.cpu_millis is None && spec.limits.memory_bytes is None
            && spec.limits.pids is None && spec.limits.disk_bytes is None && spec.limits.wall_time is None
            && spec.env@.len() == 0 && !spec.network && !spec.allow_host_proc_fallback && exists|
            f: SnapshotFacts,
        | #[trigger]
            final(reg).finds_snapshot(key@, f) && spec.rootfs@ == f.rootfs && (
            spec.from_snapshot matches Some(s) && s.0@ == f.id),
{
    match reg.get_snapshot(key) {
        Ok(snap) => {
            assert(reg.finds_snapshot(key@, snap@));
            Ok(restore_spec(&snap, name))
        },
        Err(e) => Err(e),
    }
}

/// What the registry holds after the sandbox `sb` was recorded and then marked
/// ready, with nobody else writing in between.
pub open spec fn with_ready(before: sql::Tables, sb: SandboxFacts) -> sql::Tables {
    sql::with_state(
        sql::with_sandbox(before, sb.id, registry::sandbox_record(sb)),
        sb.id,
        types::SandboxState::Ready.word(),
    )
}

/// Restoring a snapshot makes a new sandbox, and touches nothing else.
///
/// Where a spawn of what `restore_from` asks for ends ready, the sandbox has an
/// id that no sandbox had, the name that was asked for and the snapshot's base
/// image; the snapshot's layer was copied into its own; looking it up finds it
/// ready. Every snapshot and every other sandbox, the one that the snapshot was
/// taken of included, is as it was. `project_dir` is what the check of the base
/// image's directory came to: that directory, still being there.
pub proof fn law_restore_makes_a_new_sandbox(
    before: sql::Tables,
    snap: SnapshotFacts,
    spec: SandboxSpec,
    sb: SandboxFacts,
    project_dir: Seq<char>,
    outcomes: Seq<bool>,
    has_cgroup: bool,
)
    requires
        restores(spec, snap),
        project_dir == spec.rootfs@,
        sb == spawn::creating(spec, sb.id, sb.state_dir, project_dir, sb.created_at),
        !sql::sandbox_taken(before, sb.id, registry::sandbox_record(sb)),
        spawn::spawn_at(outcomes, true, has_cgroup) == spawn::SpawnStage::Ready,
    ensures
        !before.sandboxes.dom().contains(sb.id),
        with_ready(before, sb).sandboxes.dom() == before.sandboxes.dom().insert(sb.id),
        forall|got: SandboxFacts| #[trigger]
            registry::finds_sandbox(with_ready(before, sb).sandboxes, sb.id, got) ==> got.id == sb.id
                && got.name == text::opt_view(spec.name) && got.state == types::SandboxState::Ready
                && got.rootfs == snap.rootfs && got.state_dir == sb.state_dir,
        forall|id: Seq<char>| #[trigger]
            before.sandboxes.dom().contains(id) ==> with_ready(before, sb).sandboxes[id]
                == before.sandboxes[id],
        with_ready(before, sb).snapshots == before.snapshots,
        exists|k: int| spawn::seeded_at(outcomes, has_cgroup, k),
{
    spawn::law_seeded_before_recorded(outcomes, has_cgroup);
    let after = with_ready(before, sb);
    assert(after.sandboxes.dom() =~= before.sandboxes.dom().insert(sb.id));
    assert forall|got: SandboxFacts| #[trigger]
        registry::finds_sandbox(after.sandboxes, sb.id, got) implies got.id == sb.id && got.name
        == text::opt_view(spec.name) && got.state == types::SandboxState::Ready && got.rootfs
        == snap.rootfs && got.state_dir == sb.state_dir by {
        assert(after.sandboxes.dom().contains(sb.id));
        types::law_state_roundtrip(types::SandboxState::Ready, types::SandboxState::Ready);
    }
}

/// A snapshot can be restored again: what it is restored to next is yet another
/// sandbox, with the same base image, and the snapshots are still as they were.
pub proof fn law_restores_again(
    before: sql::Tables,
    snap: SnapshotFacts,
    first: SandboxFacts,
    second: SandboxFacts,
)
    requires
        before.snapshots.dom().contains(snap.id),
        snap == registry::snapshot_facts(snap.id, before.snapshots[snap.id]),
        !sql::sandbox_taken(before, first.id, registry::sandbox_record(first)),
        !sql::sandbox_taken(
            with_ready(before, first),
            second.id,
            registry::sandbox_record(second),
        ),
    ensures
        second.id != first.id,
        registry::finds_snapshot(with_ready(before, first).snapshots, snap.id, snap),
        with_ready(with_ready(before, first), second).sandboxes.dom().contains(first.id),
        with_ready(with_ready(before, first), second).snapshots == before.snapshots,
{
    assert(with_ready(before, first).sandboxes.dom().contains(first.id));
}

// --- the layer to look at ----------------------------------------------------

/// A layer: where it is, and what it lies over.
pub struct LayerPaths {
    pub upper: String,
    pub base: String,
}

/// The layer that a snapshot captured.
pub open spec fn is_layer_of_snapshot(l: LayerPaths, s: SnapshotFacts) -> bool {
    l.upper@ == paths::under(s.path, "upper"@) && l.base@ == s.rootfs
}

/// The layer that a sandbox writes to.
pub open spec fn is_layer_of_sandbox(l: LayerPaths, s: SandboxFacts) -> bool {
    l.upper@ == paths::under(s.state_dir, "upper"@) && l.base@ == s.rootfs
}

/// The layer that a snapshot captured.
pub fn snapshot_layer(s: &SnapshotMeta) -> (r: LayerPaths)
    ensures
        is_layer_of_snapshot(r, s@),
        r.upper@ == paths::under(s.path@, "upper"@),
        r.base@ == s.rootfs@,
{
    LayerPaths { upper: upper_dir(s.path.as_str()), base: s.rootfs.clone() }
}

/// The layer that a sandbox writes to.
pub fn sandbox_layer(s: &Sandbox) -> (r: LayerPaths)
    ensures
        is_layer_of_sandbox(r, s@),
        r.upper@ == paths::under(s.state_dir@, "upper"@),
        r.base@ == s.rootfs@,
{
    LayerPaths { upper: upper_dir(s.state_dir.as_str()), base: s.rootfs.clone() }
}

/// The layer is one that looking `target` up among the snapshots gives.
pub open spec fn names_snapshot_layer(reg: Registry, target: Seq<char>, l: LayerPaths) -> bool {
    exists|s: SnapshotFacts| #[trigger]
        reg.finds_snapshot(target, s) && is_layer_of_snapshot(l, s)
}

/// The layer is one that looking `target` up among the sandboxes gives.
pub open spec fn names_sandbox_layer(reg: Registry, target: Seq<char>, l: LayerPaths) -> bool {
    exists|s: SandboxFacts| #[trigger]
        reg.finds_sandbox(target, s) && is_layer_of_sandbox(l, s)
}

/// The layer that `target` names, given what looking it up among the snapshots
/// came to: a snapshot wins, and only without one is a sandbox looked for.
pub fn layer_after_lookup(
    snap: Result<SnapshotMeta, Error>,
    reg: &mut Registry,
    target: &str,
) -> (r: Result<LayerPaths, Error>)
    ensures
        final(reg).same_kind(*old(reg)),
        old(reg).found(final(reg).tables()),
        match snap {
            Ok(s) => *final(reg) == *old(reg) && (r matches Ok(l) && is_layer_of_snapshot(l, s@)
                && l.upper@ == paths::under(s.path@, "upper"@) && l.base@ == s.rootfs@),
            Err(_) => match r {
                Ok(l) => names_sandbox_layer(*final(reg), target@, l),
                Err(e) => e is Registry || (e.is_not_found(ResourceKind::Sandbox, target@)
                    && final(reg).lacks_sandbox(target@)),
            },
        },
{
    match snap {
        Ok(s) => Ok(snapshot_layer(&s)),
        Err(_) => match reg.get_sandbox(target) {
            Ok(s) => {
                let l: LayerPaths = sandbox_layer(&s);
                assert(reg.finds_sandbox(target@, s@));
                Ok(l)
            },
            Err(e) => Err(e),
        },
    }
}

/// The layer that `target` names: a snapshot's or, where no snapshot is found,
/// a sandbox's.
pub fn resolve_layer(reg: &mut Registry, target: &str) -> (r: Result<LayerPaths, Error>)
    ensures
        final(reg).same_kind(*old(reg)),
        old(reg).found(final(reg).tables()),
        match r {
            Ok(l) => names_snapshot_layer(*final(reg), target@, l) || names_sandbox_layer(
                *final(reg),
                target@,
                l,
            ),
            Err(e) => e is Registry || (e.is_not_found(ResourceKind::Sandbox, target@)
                && final(reg).lacks_sandbox(target@)),
        },
{
    let snap: Result<SnapshotMeta, Error> = reg.get_snapshot(target);
    proof {
        if snap is Ok {
            assert(reg.finds_snapshot(target@, snap->Ok_0@));
        }
    }
    layer_after_lookup(snap, reg, target)
}

// --- the whole ---------------------------------------------------------------

/// The step that a snapshot is at.
#[derive(Debug, Clone, Copy, PartialEq, Eq, Structural)]
pub enum SnapStage {
    /// Check the name.
    CheckName,
    /// Look the sandbox up.
    Find,
    /// Take the sandbox's operation lock.
    Lock,
    /// Look the sandbox up again: it may be gone by now.
    FindAgain,
    /// Draw an id.
    NewId,
    /// Create the directory of all snapshots.
    MakeParent,
    /// Create the snapshot's own directory.
    MakeDir,
    /// Record the snapshot.
    Insert,
    /// Freeze the sandbox's processes.
    Freeze,
    /// Flush the file system.
    Sync { frozen: bool },
    /// Copy the layer.
    Copy { frozen: bool },
    /// Thaw the sandbox's processes.
    Thaw { copied: bool },
    /// Record the size.
    SetSize,
    /// Done.
    Done,
    /// Remove the snapshot's directory.
    Clear,
    /// Remove the snapshot's directory and its record.
    Undo,
    /// Failed.
    Failed,
}

/// The stage after the copy, once nothing is frozen.
pub open spec fn after_layer(copied: bool) -> SnapStage {
    if copied {
        SnapStage::SetSize
    } else {
        SnapStage::Undo
    }
}

/// The stage after `s`, which went well or not.
pub open spec fn snap_after(s: SnapStage, ok: bool, has_cgroup: bool) -> SnapStage {
    match s {
        SnapStage::Done => SnapStage::Done,
        SnapStage::Clear | SnapStage::Undo | SnapStage::Failed => SnapStage::Failed,
        SnapStage::Freeze => SnapStage::Sync { frozen: ok },
        SnapStage::Sync { frozen } => SnapStage::Copy { frozen },
        SnapStage::Copy { frozen } => if frozen {
            SnapStage::Thaw { copied: ok }
        } else {
            after_layer(ok)
        },
        SnapStage::Thaw { copied } => after_layer(copied),
        SnapStage::Insert => if !ok {
            SnapStage::Clear
        } else if has_cgroup {
            SnapStage::Freeze
        } else {
            SnapStage::Sync { frozen: false }
        },
        _ => if !ok {
            SnapStage::Failed
        } else {
            match s {
                SnapStage::CheckName => SnapStage::Find,
                SnapStage::Find => SnapStage::Lock,
                SnapStage::Lock => SnapStage::FindAgain,
                SnapStage::FindAgain => SnapStage::NewId,
                SnapStage::NewId => SnapStage::MakeParent,
                SnapStage::MakeParent => SnapStage::MakeDir,
                SnapStage::MakeDir => SnapStage::Insert,
                _ => SnapStage::Done,
            }
        },
    }
}

/// The stage after `s`. Freezing and flushing are done as well as can be; the
/// layer is copied in any case. What was frozen is thawed whether or not the
/// copy worked.
pub fn snap_next(s: SnapStage, ok: bool, has_cgroup: bool) -> (r: SnapStage)
    ensures
        r == snap_after(s, ok, has_cgroup),
        r == SnapStage::Find <==> s == SnapStage::CheckName && ok,
        r == SnapStage::Lock <==> s == SnapStage::Find && ok,
        r == SnapStage::FindAgain <==> s == SnapStage::Lock && ok,
        r == SnapStage::NewId <==> s == SnapStage::FindAgain && ok,
        r == SnapStage::MakeParent <==> s == SnapStage::NewId && ok,
        r == SnapStage::MakeDir <==> s == SnapStage::MakeParent && ok,
        r == SnapStage::Insert <==> s == SnapStage::MakeDir && ok,
        r == SnapStage::Freeze <==> s == SnapStage::Insert && ok && has_cgroup,
        r == (SnapStage::Sync { frozen: true }) <==> s == SnapStage::Freeze && ok,
        r == (SnapStage::Sync { frozen: false }) <==> (s == SnapStage::Freeze && !ok) || (s
            == SnapStage::Insert && ok && !has_cgroup),
        r == (SnapStage::Copy { frozen: true }) <==> s == (SnapStage::Sync { frozen: true }),
        r == (SnapStage::Copy { frozen: false }) <==> s == (SnapStage::Sync { frozen: false }),
        r == (SnapStage::Thaw { copied: true }) <==> s == (SnapStage::Copy { frozen: true }) && ok,
        r == (SnapStage::Thaw { copied: false }) <==> s == (SnapStage::Copy { frozen: true }) && !ok,
        r == SnapStage::SetSize <==> s == (SnapStage::Thaw { copied: true }) || (s
            == (SnapStage::Copy { frozen: false }) && ok),
        r == SnapStage::Undo <==> s == (SnapStage::Thaw { copied: false }) || (s
            == (SnapStage::Copy { frozen: false }) && !ok),
        r == SnapStage::Clear <==> s == SnapStage::Insert && !ok,
        r == SnapStage::Done <==> s == SnapStage::Done || (s == SnapStage::SetSize && ok),
{
    match s {
        SnapStage::Done => SnapStage::Done,
        SnapStage::Clear => SnapStage::Failed,
        SnapStage::Undo => SnapStage::Failed,
        SnapStage::Failed => SnapStage::Failed,
        SnapStage::Freeze => SnapStage::Sync { frozen: ok },
        SnapStage::Sync { frozen } => SnapStage::Copy { frozen },
        SnapStage::Copy { frozen } => if frozen {
            SnapStage::Thaw { copied: ok }
        } else if ok {
            SnapStage::SetSize
        } else {
            SnapStage::Undo
        },
        SnapStage::Thaw { copied } => if copied {
            SnapStage::SetSize
        } else {
            SnapStage::Undo
        },
        SnapStage::Insert => if !ok {
            SnapStage::Clear
        } else if has_cgroup {
            SnapStage::Freeze
        } else {
            SnapStage::Sync { frozen: false }
        },
        _ if !ok => SnapStage::Failed,
        SnapStage::CheckName => SnapStage::Find,
        SnapStage::Find => SnapStage::Lock,
        SnapStage::Lock => SnapStage::FindAgain,
        SnapStage::FindAgain => SnapStage::NewId,
        SnapStage::NewId => SnapStage::MakeParent,
        SnapStage::MakeParent => SnapStage::MakeDir,
        SnapStage::MakeDir => SnapStage::Insert,
        SnapStage::SetSize => SnapStage::Done,
    }
}

/// The stage that a snapshot is at after steps with those outcomes.
pub open spec fn snap_at(outcomes: Seq<bool>, has_cgroup: bool) -> SnapStage
    decreases outcomes.len(),
{
    if outcomes.len() == 0 {
        SnapStage::CheckName
    } else {
        snap_after(snap_at(outcomes.drop_last(), has_cgroup), outcomes.last(), has_cgroup)
    }
}

/// The sandbox's processes are frozen at this stage.
pub open spec fn frozen_at(s: SnapStage) -> bool {
    match s {
        SnapStage::Sync { frozen } | SnapStage::Copy { frozen } => frozen,
        SnapStage::Thaw { .. } => true,
        _ => false,
    }
}

/// The snapshot is on record, and its layer not yet known to be whole.
pub open spec fn in_progress(s: SnapStage) -> bool {
    match s {
        SnapStage::Freeze | SnapStage::Sync { .. } | SnapStage::Copy { .. }
        | SnapStage::Thaw { .. } | SnapStage::SetSize | SnapStage::Undo => true,
        _ => false,
    }
}

/// The step number `k` was `what`, and went well.
pub open spec fn did(outcomes: Seq<bool>, has_cgroup: bool, what: SnapStage, k: int) -> bool {
    0 <= k < outcomes.len() && outcomes[k] && snap_at(outcomes.take(k), has_cgroup) == what
}

/// Processes are frozen only by the freezing step, from where the only way on
/// leads through the thawing step.
pub proof fn law_frozen_is_thawed(s: SnapStage, ok: bool, has_cgroup: bool)
    ensures
        frozen_at(snap_after(s, ok, has_cgroup)) ==> frozen_at(s) || (s == SnapStage::Freeze && ok),
        frozen_at(s) && !frozen_at(snap_after(s, ok, has_cgroup)) ==> s is Thaw,
{
}

/// No layer is copied before the snapshot is on record: one cut short leaves
/// a record by which it can be cleaned up.
pub proof fn law_snapshot_recorded_first(outcomes: Seq<bool>, has_cgroup: bool)
    requires
        in_progress(snap_at(outcomes, has_cgroup)),
    ensures
        exists|k: int| did(outcomes, has_cgroup, SnapStage::Insert, k),
    decreases outcomes.len(),
{
    let n = outcomes.len() as int;
    if n > 0 {
        let before = outcomes.drop_last();
        assert(before =~= outcomes.take(n - 1));
        if in_progress(snap_at(before, has_cgroup)) {
            law_snapshot_recorded_first(before, has_cgroup);
            let k = choose|k: int| did(before, has_cgroup, SnapStage::Insert, k);
            assert(before.take(k) =~= outcomes.take(k));
            assert(did(outcomes, has_cgroup, SnapStage::Insert, k));
        } else {
            assert(did(outcomes, has_cgroup, SnapStage::Insert, n - 1));
        }
    }
}

/// A snapshot is done only if its layer was copied whole; a copy that failed
/// leads to the snapshot being removed.
pub proof fn law_done_means_copied(s: SnapStage, ok: bool, has_cgroup: bool)
    ensures
        snap_after(s, ok, has_cgroup) == SnapStage::SetSize && s != SnapStage::SetSize ==> (
        s matches SnapStage::Copy { .. } && ok) || s == (SnapStage::Thaw { copied: true }),
        snap_after(s, ok, has_cgroup) == (SnapStage::Thaw { copied: true }) ==> s
            == (SnapStage::Copy { frozen: true }) && ok,
        snap_after(s, ok, has_cgroup) == SnapStage::Done && s != SnapStage::Done ==> s
            == SnapStage::SetSize && ok,
        s == (SnapStage::Copy { frozen: false }) && !ok ==> snap_after(s, ok, has_cgroup)
            == SnapStage::Undo,
        s == (SnapStage::Copy { frozen: true }) && !ok ==> snap_after(
            snap_after(s, ok, has_cgroup),
            true,
            has_cgroup,
        ) == SnapStage::Undo,
{
}

} // verus!
