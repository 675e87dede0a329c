//! Ending sandboxes: on request, and after a crash.

use vstd::prelude::*;

use crate::error::{Error, IoFailure, IoKind};
use crate::layout::BACKEND_NAME;
use crate::registry;
use crate::sql;
use crate::text::same;
use crate::types::{Sandbox, SandboxFacts};

verus! {

// --- the operation lock ------------------------------------------------------

/// What came of trying to take a sandbox's operation lock.
#[derive(Debug, Clone, Copy, PartialEq, Eq, Structural)]
pub enum LockTry {
    /// It was free, and is now held.
    Taken,
    /// An operation is in flight, or there is nothing to lock.
    Busy,
    /// It could not be tried.
    Unknown,
}

/// What locking an open file came to.
pub enum FlockResult {
    Locked,
    /// It is locked by someone else.
    WouldBlock,
    Failed(IoFailure),
}

/// What came of trying to take the lock: a lock file whose directory is gone
/// leaves nothing to lock.
pub fn flock_try(opened: &Result<(), IoFailure>, locked: &FlockResult) -> (r: LockTry)
    ensures
        r == match *opened {
            Err(f) => if f.kind == IoKind::NotFound {
                LockTry::Busy
            } else {
                LockTry::Unknown
            },
            Ok(()) => match *locked {
                FlockResult::Locked => LockTry::Taken,
                FlockResult::WouldBlock => LockTry::Busy,
                FlockResult::Failed(_) => LockTry::Unknown,
            },
        },
{
    match opened {
        Err(f) => match f.kind {
            IoKind::NotFound => LockTry::Busy,
            _ => LockTry::Unknown,
        },
        Ok(()) => match locked {
            FlockResult::Locked => LockTry::Taken,
            FlockResult::WouldBlock => LockTry::Busy,
            FlockResult::Failed(_) => LockTry::Unknown,
        },
    }
}

// --- destroying --------------------------------------------------------------

/// The step that a destruction is at.
#[derive(Debug, Clone, Copy, PartialEq, Eq, Structural)]
pub enum DestroyStage {
    /// Look the sandbox up.
    Find,
    /// Take its operation lock.
    Lock,
    /// Kill its guest, and with it every process inside.
    Kill,
    /// Remove its cgroup.
    Cgroup,
    /// Remove its state directory.
    RemoveDir,
    /// Remove its record.
    RemoveRow,
    /// Done.
    Done,
    /// Failed.
    Failed,
}

/// How a step went.
#[derive(Debug, Clone, Copy, PartialEq, Eq, Structural)]
pub enum Outcome {
    Fine,
    /// There is no such thing.
    Missing,
    Failed,
}

/// How looking a sandbox up went.
pub fn lookup_outcome(res: &Result<Sandbox, Error>) -> (r: Outcome)
    ensures
        r == match *res {
            Ok(_) => Outcome::Fine,
            Err(e) => if e is NotFound {
                Outcome::Missing
            } else {
                Outcome::Failed
            },
        },
{
    match res {
        Ok(_) => Outcome::Fine,
        Err(Error::NotFound { kind: _, id: _ }) => Outcome::Missing,
        Err(_) => Outcome::Failed,
    }
}

/// The stage after `s`.
pub open spec fn destroy_after(s: DestroyStage, o: Outcome) -> DestroyStage {
    match s {
        DestroyStage::Find => match o {
            Outcome::Fine => DestroyStage::Lock,
            Outcome::Missing => DestroyStage::Done,
            Outcome::Failed => DestroyStage::Failed,
        },
        DestroyStage::Lock => DestroyStage::Kill,
        DestroyStage::Kill => if o == Outcome::Failed {
            DestroyStage::Failed
        } else {
            DestroyStage::Cgroup
        },
        DestroyStage::Cgroup => DestroyStage::RemoveDir,
        DestroyStage::RemoveDir => if o == Outcome::Failed {
            DestroyStage::Failed
        } else {
            DestroyStage::RemoveRow
        },
        DestroyStage::RemoveRow => if o == Outcome::Failed {
            DestroyStage::Failed
        } else {
            DestroyStage::Done
        },
        DestroyStage::Done => DestroyStage::Done,
        DestroyStage::Failed => DestroyStage::Failed,
    }
}

/// The stage after `s`. A sandbox that does not exist is as good as destroyed.
/// Locking and removing the cgroup are done as well as can be; every other
/// step must work before the record goes.
pub fn destroy_next(s: DestroyStage, o: Outcome) -> (r: DestroyStage)
    ensures
        r == destroy_after(s, o),
        r == DestroyStage::Lock <==> s == DestroyStage::Find && o == Outcome::Fine,
        r == DestroyStage::Kill <==> s == DestroyStage::Lock,
        r == DestroyStage::Cgroup <==> s == DestroyStage::Kill && o != Outcome::Failed,
        r == DestroyStage::RemoveDir <==> s == DestroyStage::Cgroup,
        r == DestroyStage::RemoveRow <==> s == DestroyStage::RemoveDir && o != Outcome::Failed,
        r == DestroyStage::Done <==> s == DestroyStage::Done || (s == DestroyStage::RemoveRow && o
            != Outcome::Failed) || (s == DestroyStage::Find && o == Outcome::Missing),
        r == DestroyStage::Failed <==> s == DestroyStage::Failed || (o == Outcome::Failed && (s
            == DestroyStage::Find || s == DestroyStage::Kill || s == DestroyStage::RemoveDir || s
            == DestroyStage::RemoveRow)),
{
    let failed: bool = match o {
        Outcome::Failed => true,
        _ => false,
    };
    match s {
        DestroyStage::Find => match o {
            Outcome::Fine => DestroyStage::Lock,
            Outcome::Missing => DestroyStage::Done,
            Outcome::Failed => DestroyStage::Failed,
        },
        DestroyStage::Lock => DestroyStage::Kill,
        DestroyStage::Cgroup => DestroyStage::RemoveDir,
        DestroyStage::Done => DestroyStage::Done,
        DestroyStage::Failed => DestroyStage::Failed,
        _ if failed => DestroyStage::Failed,
        DestroyStage::Kill => DestroyStage::Cgroup,
        DestroyStage::RemoveDir => DestroyStage::RemoveRow,
        DestroyStage::RemoveRow => DestroyStage::Done,
    }
}

/// The stage that a destruction is at after steps with those outcomes.
pub open spec fn destroy_at(outcomes: Seq<Outcome>) -> DestroyStage
    decreases outcomes.len(),
{
    if outcomes.len() == 0 {
        DestroyStage::Find
    } else {
        destroy_after(destroy_at(outcomes.drop_last()), outcomes.last())
    }
}

/// The record is removed only after the guest was seen gone and the state
/// directory was removed: whatever is left behind stays on record.
pub proof fn law_record_goes_last(outcomes: Seq<Outcome>)
    requires
        destroy_at(outcomes) == DestroyStage::RemoveRow,
    ensures
        outcomes.len() == 5,
        outcomes[0] == Outcome::Fine,
        outcomes[2] != Outcome::Failed,
        outcomes[4] != Outcome::Failed,
{
    let n = outcomes.len() as int;
    let a = outcomes.drop_last();
    let b = a.drop_last();
    let c = b.drop_last();
    let d = c.drop_last();
    let e = d.drop_last();
    assert(destroy_at(a) == DestroyStage::RemoveDir);
    assert(destroy_at(b) == DestroyStage::Cgroup);
    assert(destroy_at(c) == DestroyStage::Kill);
    assert(destroy_at(d) == DestroyStage::Lock);
    assert(destroy_at(e) == DestroyStage::Find);
    lemma_find_comes_first(e);
    assert(outcomes.last() == outcomes[4]);
    assert(c.last() == outcomes[2] || b.last() == outcomes[2]);
}

proof fn lemma_find_comes_first(outcomes: Seq<Outcome>)
    requires
        destroy_at(outcomes) == DestroyStage::Find,
    ensures
        outcomes.len() == 0,
{
    if outcomes.len() > 0 {
        let s = destroy_at(outcomes.drop_last());
        assert(destroy_after(s, outcomes.last()) != DestroyStage::Find);
    }
}

/// What the registry holds after those steps of destroying the sandbox `id`,
/// with nobody else writing in between: only removing the record changes it.
pub open spec fn destroy_leaves(
    before: sql::Tables,
    id: Seq<char>,
    outcomes: Seq<Outcome>,
) -> sql::Tables
    decreases outcomes.len(),
{
    if outcomes.len() == 0 {
        before
    } else {
        let rest = outcomes.drop_last();
        if destroy_at(rest) == DestroyStage::RemoveRow && outcomes.last() != Outcome::Failed {
            sql::without_sandbox(true, destroy_leaves(before, id, rest), id)
        } else {
            destroy_leaves(before, id, rest)
        }
    }
}

/// Until the record is removed the registry is as it was.
proof fn lemma_untouched_so_far(before: sql::Tables, id: Seq<char>, outcomes: Seq<Outcome>)
    requires
        destroy_at(outcomes) != DestroyStage::Done,
    ensures
        destroy_leaves(before, id, outcomes) == before,
    decreases outcomes.len(),
{
    if outcomes.len() > 0 {
        lemma_untouched_so_far(before, id, outcomes.drop_last());
    }
}

/// A destruction that ends well either found no sandbox, and changed nothing,
/// or saw the guest gone and the state directory removed, and then removed the
/// record.
proof fn lemma_destroy_ends(before: sql::Tables, id: Seq<char>, outcomes: Seq<Outcome>)
    requires
        destroy_at(outcomes) == DestroyStage::Done,
    ensures
        outcomes.len() > 0,
        outcomes[0] == Outcome::Missing ==> destroy_leaves(before, id, outcomes) == before,
        outcomes[0] != Outcome::Missing ==> outcomes.len() >= 6 && outcomes[2] != Outcome::Failed
            && outcomes[4] != Outcome::Failed && destroy_leaves(before, id, outcomes)
            == sql::without_sandbox(true, before, id),
    decreases outcomes.len(),
{
    let rest = outcomes.drop_last();
    match destroy_at(rest) {
        DestroyStage::Done => {
            lemma_destroy_ends(before, id, rest);
            assert(rest[0] == outcomes[0]);
            if outcomes[0] != Outcome::Missing {
                assert(rest[2] == outcomes[2] && rest[4] == outcomes[4]);
            }
        },
        DestroyStage::Find => {
            lemma_find_comes_first(rest);
            assert(destroy_leaves(before, id, rest) == before);
        },
        _ => {
            law_record_goes_last(rest);
            lemma_untouched_so_far(before, id, rest);
            assert(rest[0] == outcomes[0] && rest[2] == outcomes[2] && rest[4] == outcomes[4]);
        },
    }
}

/// Destroying a sandbox leaves nothing of it, and keeps everything else.
///
/// Where destroying the sandbox `sb` ends well, its guest is gone and its state
/// directory removed; it has no record; its snapshots are all there and refer
/// to no sandbox; other sandboxes and other snapshots are as they were.
pub proof fn law_destroy_is_complete(
    before: sql::Tables,
    key: Seq<char>,
    sb: SandboxFacts,
    outcomes: Seq<Outcome>,
)
    requires
        registry::finds_sandbox(before.sandboxes, key, sb),
        outcomes.len() > 0 && outcomes[0] == Outcome::Fine,
        destroy_at(outcomes) == DestroyStage::Done,
    ensures
        outcomes.len() >= 6 && outcomes[2] != Outcome::Failed && outcomes[4] != Outcome::Failed,
        ({
            let after = destroy_leaves(before, sb.id, outcomes);
            &&& after.sandboxes == before.sandboxes.remove(sb.id)
            &&& !after.sandboxes.dom().contains(sb.id)
            &&& after.snapshots.dom() == before.snapshots.dom()
            &&& forall|s: Seq<char>| #[trigger]
                before.snapshots.dom().contains(s) ==> after.snapshots[s] == sql::orphaned(
                    before.snapshots[s],
                    sb.id,
                ) && after.snapshots[s].sandbox_id != Some(sb.id)
        }),
{
    lemma_destroy_ends(before, sb.id, outcomes);
    let after = destroy_leaves(before, sb.id, outcomes);
    assert(after.snapshots.dom() =~= before.snapshots.dom());
}

/// Destroying is idempotent: once a sandbox is destroyed, the same call finds
/// nothing, ends well at once, and changes nothing; so long as no other sandbox
/// is called what the call says, for it is found by that name.
pub proof fn law_destroy_is_idempotent(
    before: sql::Tables,
    key: Seq<char>,
    sb: SandboxFacts,
    outcomes: Seq<Outcome>,
)
    requires
        registry::finds_sandbox(before.sandboxes, key, sb),
        forall|id: Seq<char>| #[trigger]
            before.sandboxes.dom().contains(id) && id != sb.id ==> before.sandboxes[id].name != Some(
                key,
            ),
        outcomes.len() > 0 && outcomes[0] == Outcome::Fine,
        destroy_at(outcomes) == DestroyStage::Done,
    ensures
        ({
            let after = destroy_leaves(before, sb.id, outcomes);
            &&& registry::lacks_sandbox(after.sandboxes, key)
            &&& destroy_leaves(after, sb.id, seq![Outcome::Missing]) == after
            &&& sql::without_sandbox(true, after, sb.id) == after
        }),
        destroy_at(seq![Outcome::Missing]) == DestroyStage::Done,
{
    law_destroy_is_complete(before, key, sb, outcomes);
    law_unknown_is_destroyed(destroy_leaves(before, sb.id, outcomes), sb.id);
    let after = destroy_leaves(before, sb.id, outcomes);
    let again = sql::without_sandbox(true, after, sb.id);
    assert(again.sandboxes =~= after.sandboxes);
}

/// Destroying what does not exist ends well at once and changes nothing.
pub proof fn law_unknown_is_destroyed(before: sql::Tables, id: Seq<char>)
    ensures
        destroy_at(seq![Outcome::Missing]) == DestroyStage::Done,
        destroy_leaves(before, id, seq![Outcome::Missing]) == before,
{
    let one = seq![Outcome::Missing];
    assert(one.drop_last() =~= Seq::<Outcome>::empty());
    assert(destroy_at(one.drop_last()) == DestroyStage::Find);
    assert(destroy_leaves(before, id, one.drop_last()) == before);
}

// --- reconciling -------------------------------------------------------------

/// What to do about a recorded sandbox at startup.
#[derive(Debug, Clone, Copy, PartialEq, Eq, Structural)]
pub enum Reconcile {
    /// It is not ours, or an operation on it is in flight.
    Leave,
    /// Its guest runs: thaw it, should a crash have left it frozen.
    Thaw,
    /// Nothing is left of it but its record: remove that.
    DropRow,
    /// Its guest is gone: find out whether an operation is in flight.
    TryLock,
    /// Its guest is gone and nothing is in flight: destroy it.
    Reap,
}

/// What to do about a recorded sandbox.
pub open spec fn reconcile_action(
    ours: bool,
    alive: bool,
    dir_exists: bool,
    lock: Option<LockTry>,
) -> Reconcile {
    if !ours {
        Reconcile::Leave
    } else if alive {
        Reconcile::Thaw
    } else if !dir_exists {
        Reconcile::DropRow
    } else {
        match lock {
            None => Reconcile::TryLock,
            Some(LockTry::Taken) => Reconcile::Reap,
            Some(_) => Reconcile::Leave,
        }
    }
}

/// What to do about a recorded sandbox, given whether its guest runs, whether
/// its state directory exists, and, once that was tried, what came of taking
/// its lock.
pub fn reconcile_step(
    sb: &Sandbox,
    alive: bool,
    dir_exists: bool,
    lock: Option<LockTry>,
) -> (r: Reconcile)
    ensures
        r == reconcile_action(sb@.backend == BACKEND_NAME@, alive, dir_exists, lock),
        r == Reconcile::Thaw <==> sb.backend@ == "ns"@ && alive,
        r == Reconcile::DropRow <==> sb.backend@ == "ns"@ && !alive && !dir_exists,
        r == Reconcile::TryLock <==> sb.backend@ == "ns"@ && !alive && dir_exists && lock is None,
        r == Reconcile::Reap <==> sb.backend@ == "ns"@ && !alive && dir_exists && lock == Some(
            LockTry::Taken,
        ),
{
    if !same(sb.backend.as_str(), BACKEND_NAME) {
        return Reconcile::Leave;
    }
    if alive {
        return Reconcile::Thaw;
    }
    if !dir_exists {
        return Reconcile::DropRow;
    }
    match lock {
        None => Reconcile::TryLock,
        Some(LockTry::Taken) => Reconcile::Reap,
        Some(_) => Reconcile::Leave,
    }
}

/// Whether a sandbox counts as reaped: nothing of it is left, not even its
/// record.
pub fn counts_as_reaped(did: Reconcile, ok: bool) -> (r: bool)
    ensures
        r == ((did == Reconcile::DropRow || did == Reconcile::Reap) && ok),
{
    match did {
        Reconcile::DropRow => ok,
        Reconcile::Reap => ok,
        _ => false,
    }
}

/// Whether to thaw a sandbox whose guest runs: it has a cgroup, nothing is in
/// flight, and it is frozen.
pub fn thaw_needed(has_cgroup: bool, lock: LockTry, frozen: bool) -> (r: bool)
    ensures
        r == (has_cgroup && lock == LockTry::Taken && frozen),
{
    has_cgroup && frozen && match lock {
        LockTry::Taken => true,
        _ => false,
    }
}

/// A sandbox is destroyed only if it is ours, its guest does not run, and no
/// operation on it is in flight.
pub proof fn law_only_crashed_sandboxes_are_reaped(
    ours: bool,
    alive: bool,
    dir_exists: bool,
    lock: Option<LockTry>,
)
    ensures
        reconcile_action(ours, alive, dir_exists, lock) == Reconcile::Reap ==> ours && !alive
            && lock == Some(LockTry::Taken),
        reconcile_action(ours, alive, dir_exists, lock) == Reconcile::DropRow ==> ours && !alive
            && !dir_exists,
{
}

} // verus!
