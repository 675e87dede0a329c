//! The registry of sandboxes and snapshots.
//!
//! Every operation is one small statement. A database file can be shared with
//! other processes, so of such a registry an operation says what it did to
//! the rows as it found them; of a private one, also that nothing else
//! happened in between. A file can hold tables of these names that another
//! program made, so of rows all is said under the condition that the tables are
//! laid out as the registry makes them.

use vstd::prelude::*;

use rusqlite::Connection;

use crate::error::{Error, ResourceKind, SqlFailure};
use crate::limits;
use crate::limits::ResourceLimits;
use crate::lists::reversed;
use crate::paths;
use crate::paths::join;
use crate::sql;
use crate::sql::{
    connect, connect_in_memory, execute, query_sandboxes, query_snapshots, read_number, run_script,
    set_pragma, wait_when_busy, SandboxRow, SnapshotRow, SqlValue, ADD_ROOTFS, ADD_SIZE,
    COUNT_ROOTFS, COUNT_SIZE, DELETE_SANDBOX, DELETE_SNAPSHOT, FILL_ROOTFS, FIND_SANDBOX,
    FIND_SNAPSHOT, INSERT_SANDBOX, INSERT_SNAPSHOT, LIST_SANDBOXES, LIST_SNAPSHOTS, SCHEMA,
    SET_SIZE, SET_STATE,
};
use crate::text;
use crate::text::{copied, decimal_text, same};
use crate::types::{
    Sandbox, SandboxFacts, SandboxId, SandboxState, SnapshotFacts, SnapshotId, SnapshotMeta,
};

verus! {

/// Version of the table layout, recorded in the database.
pub const SCHEMA_VERSION: i64 = 1;

/// How long a statement waits for another process, in seconds.
pub const BUSY_SECS: u64 = 5;

// --- rows and what they stand for --------------------------------------------

/// The row that a sandbox is stored as.
pub open spec fn sandbox_record(f: SandboxFacts) -> sql::SandboxRecord {
    sql::SandboxRecord {
        name: f.name,
        state: f.state.word(),
        backend: f.backend,
        rootfs: f.rootfs,
        state_dir: f.state_dir,
        limits: limits::limits_text(f.limits),
        created_at: f.created_at,
    }
}

/// The row that a snapshot is stored as.
pub open spec fn snapshot_record(f: SnapshotFacts) -> sql::SnapshotRecord {
    sql::SnapshotRecord {
        sandbox_id: f.sandbox_id,
        name: f.name,
        path: f.path,
        rootfs: f.rootfs,
        size_bytes: f.size_bytes,
        created_at: f.created_at,
    }
}

/// The row `id` with columns `r` is read as the sandbox `f`. A state that is
/// not one of the known words counts as stopped; limits that make no sense
/// count as none; limits that were written are read back.
pub open spec fn reads_as(id: Seq<char>, r: sql::SandboxRecord, f: SandboxFacts) -> bool {
    &&& f.id == id
    &&& f.name == r.name
    &&& f.state == match SandboxState::of_word(r.state) {
        Some(s) => s,
        None => SandboxState::Stopped,
    }
    &&& f.backend == r.backend
    &&& f.rootfs == r.rootfs
    &&& f.state_dir == r.state_dir
    &&& f.limits == limits::limits_from(r.limits)
    &&& forall|l: ResourceLimits|
        l.wf() && r.limits == #[trigger] limits::limits_text(l) ==> f.limits == l
    &&& f.created_at == r.created_at
}

/// The snapshot that the row `id` with columns `r` stands for.
pub open spec fn snapshot_facts(id: Seq<char>, r: sql::SnapshotRecord) -> SnapshotFacts {
    SnapshotFacts {
        id,
        sandbox_id: r.sandbox_id,
        name: r.name,
        path: r.path,
        rootfs: r.rootfs,
        size_bytes: r.size_bytes,
        created_at: r.created_at,
    }
}

/// Looking `key` up finds `f`: the row with that id or, where there is none, a
/// row with that name.
pub open spec fn finds_sandbox(
    m: Map<Seq<char>, sql::SandboxRecord>,
    key: Seq<char>,
    f: SandboxFacts,
) -> bool {
    &&& m.dom().contains(f.id)
    &&& reads_as(f.id, m[f.id], f)
    &&& f.id == key || (!m.dom().contains(key) && f.name == Some(key))
}

/// Looking `key` up finds nothing.
pub open spec fn lacks_sandbox(m: Map<Seq<char>, sql::SandboxRecord>, key: Seq<char>) -> bool {
    forall|id: Seq<char>| #[trigger] m.dom().contains(id) ==> id != key && m[id].name != Some(key)
}

/// Looking `key` up finds `f`: the row with that id or, where there is none, a
/// row with that name.
pub open spec fn finds_snapshot(
    m: Map<Seq<char>, sql::SnapshotRecord>,
    key: Seq<char>,
    f: SnapshotFacts,
) -> bool {
    &&& m.dom().contains(f.id)
    &&& f == snapshot_facts(f.id, m[f.id])
    &&& f.id == key || (!m.dom().contains(key) && f.name == key)
}

/// Looking `key` up finds nothing.
pub open spec fn lacks_snapshot(m: Map<Seq<char>, sql::SnapshotRecord>, key: Seq<char>) -> bool {
    forall|id: Seq<char>| #[trigger] m.dom().contains(id) ==> id != key && m[id].name != key
}

/// `list` holds the sandboxes of `m`, each once, oldest first.
pub open spec fn lists_sandboxes(m: Map<Seq<char>, sql::SandboxRecord>, list: Seq<Sandbox>) -> bool {
    &&& forall|i: int|
        0 <= i < list.len() ==> m.dom().contains((#[trigger] list[i])@.id) && reads_as(
            list[i]@.id,
            m[list[i]@.id],
            list[i]@,
        )
    &&& forall|i: int, j: int|
        0 <= i < j < list.len() ==> (#[trigger] list[i])@.id != (#[trigger] list[j])@.id
            && list[i]@.created_at <= list[j]@.created_at
    &&& forall|id: Seq<char>| #[trigger]
        m.dom().contains(id) ==> exists|i: int|
            0 <= i < list.len() && (#[trigger] list[i])@.id == id
}

/// `list` holds those snapshots of `m` that are of `sandbox`, or all, each
/// once, oldest first.
pub open spec fn lists_snapshots(
    m: Map<Seq<char>, sql::SnapshotRecord>,
    sandbox: Option<Seq<char>>,
    list: Seq<SnapshotMeta>,
) -> bool {
    &&& forall|i: int|
        0 <= i < list.len() ==> m.dom().contains((#[trigger] list[i])@.id) && list[i]@
            == snapshot_facts(list[i]@.id, m[list[i]@.id]) && (sandbox is None
            || list[i]@.sandbox_id == sandbox)
    &&& forall|i: int, j: int|
        0 <= i < j < list.len() ==> (#[trigger] list[i])@.id != (#[trigger] list[j])@.id
            && list[i]@.created_at <= list[j]@.created_at
    &&& forall|id: Seq<char>| #[trigger]
        m.dom().contains(id) && (sandbox is None || m[id].sandbox_id == sandbox) ==> exists|i: int|
            0 <= i < list.len() && (#[trigger] list[i])@.id == id
}

// --- reading rows ------------------------------------------------------------

/// The sandbox that a row stands for.
pub fn row_to_sandbox(row: SandboxRow) -> (r: Sandbox)
    ensures
        reads_as(row.id@, row.record(), r@),
        r.id.0@ == row.id@,
        text::opt_view(r.name) == text::opt_view(row.name),
        row.state@ == "creating"@ ==> r.state == SandboxState::Creating,
        row.state@ == "ready"@ ==> r.state == SandboxState::Ready,
        row.state@ == "running"@ ==> r.state == SandboxState::Running,
        row.state@ != "creating"@ && row.state@ != "ready"@ && row.state@ != "running"@ ==> r.state
            == SandboxState::Stopped,
        r.backend@ == row.backend@,
        r.rootfs@ == row.rootfs@,
        r.state_dir@ == row.state_dir@,
        r.created_at == row.created_at,
{
    let state: SandboxState = match SandboxState::parse(row.state.as_str()) {
        Some(s) => s,
        None => SandboxState::Stopped,
    };
    let limits: ResourceLimits = ResourceLimits::from_json(row.limits.as_str());
    Sandbox {
        id: SandboxId(row.id),
        name: row.name,
        state,
        backend: row.backend,
        rootfs: row.rootfs,
        state_dir: row.state_dir,
        limits,
        created_at: row.created_at,
    }
}

/// What is said of a negative size.
pub open spec fn bad_size(n: int) -> Seq<char> {
    "Integer -"@ + text::decimal((-n) as nat) + " out of range at index 5"@
}

/// The snapshot that a row stands for; a negative size is no size.
pub fn row_to_snapshot(row: SnapshotRow) -> (r: Result<SnapshotMeta, SqlFailure>)
    ensures
        match r {
            Ok(s) => row.size_bytes >= 0 && s@ == snapshot_facts(row.id@, row.record()),
            Err(f) => row.size_bytes < 0 && !f.constraint && f.message@ == bad_size(
                row.size_bytes as int,
            ),
        },
        r is Ok <==> row.size_bytes >= 0,
        r matches Ok(s) ==> s.id.0@ == row.id@ && s.name@ == row.name@ && s.path@ == row.path@
            && s.rootfs@ == row.rootfs@ && s.size_bytes == row.size_bytes && s.created_at
            == row.created_at && s@.sandbox_id == text::opt_view(row.sandbox_id),
        r matches Err(f) ==> f.message@ == "Integer -"@ + text::decimal((-row.size_bytes) as nat)
            + " out of range at index 5"@,
{
    if row.size_bytes < 0 {
        let n: u64 = (-(row.size_bytes as i128)) as u64;
        let mut m: String = copied("Integer -");
        m.append(decimal_text(n).as_str());
        m.append(" out of range at index 5");
        return Err(SqlFailure::plain(m));
    }
    Ok(
        SnapshotMeta {
            id: SnapshotId(row.id),
            sandbox_id: match row.sandbox_id {
                Some(s) => Some(SandboxId(s)),
                None => None,
            },
            name: row.name,
            path: row.path,
            rootfs: row.rootfs,
            size_bytes: row.size_bytes as u64,
            created_at: row.created_at,
        },
    )
}

/// Position of the first row with that id; the number of rows where none has
/// it.
pub open spec fn sandbox_at(rows: Seq<SandboxRow>, id: Seq<char>) -> int
    decreases rows.len(),
{
    if rows.len() == 0 {
        0
    } else if rows[0].id@ == id {
        0
    } else {
        1 + sandbox_at(rows.skip(1), id)
    }
}

/// Position of the first row with that id; the number of rows where none has
/// it.
pub open spec fn snapshot_at(rows: Seq<SnapshotRow>, id: Seq<char>) -> int
    decreases rows.len(),
{
    if rows.len() == 0 {
        0
    } else if rows[0].id@ == id {
        0
    } else {
        1 + snapshot_at(rows.skip(1), id)
    }
}

/// Which of `n` rows is meant, where `at` is the position of the one with the
/// right id: that one, else the first.
pub open spec fn preferred(at: int, n: int) -> int {
    if at < n {
        at
    } else {
        0
    }
}

proof fn lemma_sandbox_at(rows: Seq<SandboxRow>, id: Seq<char>)
    ensures
        0 <= sandbox_at(rows, id) <= rows.len(),
        sandbox_at(rows, id) < rows.len() ==> rows[sandbox_at(rows, id)].id@ == id,
        forall|i: int| 0 <= i < sandbox_at(rows, id) ==> (#[trigger] rows[i]).id@ != id,
    decreases rows.len(),
{
    if rows.len() > 0 && rows[0].id@ != id {
        lemma_sandbox_at(rows.skip(1), id);
        assert forall|i: int| 0 <= i < sandbox_at(rows, id) implies (#[trigger] rows[i]).id@ != id by {
            if i > 0 {
                assert(rows[i] == rows.skip(1)[i - 1]);
            }
        }
    }
}

proof fn lemma_snapshot_at(rows: Seq<SnapshotRow>, id: Seq<char>)
    ensures
        0 <= snapshot_at(rows, id) <= rows.len(),
        snapshot_at(rows, id) < rows.len() ==> rows[snapshot_at(rows, id)].id@ == id,
        forall|i: int| 0 <= i < snapshot_at(rows, id) ==> (#[trigger] rows[i]).id@ != id,
    decreases rows.len(),
{
    if rows.len() > 0 && rows[0].id@ != id {
        lemma_snapshot_at(rows.skip(1), id);
        assert forall|i: int| 0 <= i < snapshot_at(rows, id) implies (#[trigger] rows[i]).id@
            != id by {
            if i > 0 {
                assert(rows[i] == rows.skip(1)[i - 1]);
            }
        }
    }
}

/// What looking `key` up returns, given the rows with that id or that name:
/// the row with the id, else the first with the name.
pub fn pick_sandbox(rows: Result<Vec<SandboxRow>, SqlFailure>, key: &str) -> (r: Result<
    Sandbox,
    Error,
>)
    ensures
        match rows {
            Err(f) => r == Err::<Sandbox, Error>(Error::Registry(f)),
            Ok(v) => if v@.len() == 0 {
                r matches Err(e) && e.is_not_found(ResourceKind::Sandbox, key@)
            } else {
                let i = preferred(sandbox_at(v@, key@), v@.len() as int);
                r matches Ok(s) && reads_as(v@[i].id@, v@[i].record(), s@)
            },
        },
        (rows matches Ok(v) && v@.len() > 0) ==> exists|i: int|
            0 <= i < rows->Ok_0@.len() && (r matches Ok(s) && s.id.0@ == (#[trigger] rows->Ok_0@[i]).id@)
                && (rows->Ok_0@[i].id@ == key@ || (i == 0 && forall|j: int|
                0 <= j < rows->Ok_0@.len() ==> (#[trigger] rows->Ok_0@[j]).id@ != key@)),
{
    proof {
        if rows is Ok {
            lemma_sandbox_at(rows->Ok_0@, key@);
        }
    }
    let mut v: Vec<SandboxRow> = match rows {
        Err(f) => {
            return Err(Error::Registry(f));
        },
        Ok(v) => v,
    };
    if v.len() == 0 {
        return Err(Error::NotFound { kind: ResourceKind::Sandbox, id: copied(key) });
    }
    let mut i: usize = 0;
    assert(v@.skip(0) =~= v@);
    while i < v.len() && !same(v[i].id.as_str(), key)
        invariant
            i <= v@.len(),
            sandbox_at(v@, key@) == i + sandbox_at(v@.skip(i as int), key@),
        decreases v@.len() - i,
    {
        assert(v@.skip(i as int).skip(1) =~= v@.skip(i + 1));
        i += 1;
    }
    let i: usize = if i < v.len() {
        i
    } else {
        0
    };
    Ok(row_to_sandbox(v.swap_remove(i)))
}

/// What looking `key` up returns, given the rows with that id or that name:
/// the row with the id, else the first with the name.
pub fn pick_snapshot(rows: Result<Vec<SnapshotRow>, SqlFailure>, key: &str) -> (r: Result<
    SnapshotMeta,
    Error,
>)
    ensures
        match rows {
            Err(f) => r == Err::<SnapshotMeta, Error>(Error::Registry(f)),
            Ok(v) => if v@.len() == 0 {
                r matches Err(e) && e.is_not_found(ResourceKind::Snapshot, key@)
            } else {
                let i = preferred(snapshot_at(v@, key@), v@.len() as int);
                if v@[i].size_bytes >= 0 {
                    r matches Ok(s) && s@ == snapshot_facts(v@[i].id@, v@[i].record())
                } else {
                    r matches Err(Error::Registry(f)) && !f.constraint && f.message@ == bad_size(
                        v@[i].size_bytes as int,
                    )
                }
            },
        },
        (rows matches Ok(v) && r is Ok) ==> exists|i: int|
            0 <= i < rows->Ok_0@.len() && (r matches Ok(s) && s.id.0@ == (#[trigger] rows->Ok_0@[i]).id@)
                && (rows->Ok_0@[i].id@ == key@ || (i == 0 && forall|j: int|
                0 <= j < rows->Ok_0@.len() ==> (#[trigger] rows->Ok_0@[j]).id@ != key@)),
{
    proof {
        if rows is Ok {
            lemma_snapshot_at(rows->Ok_0@, key@);
        }
    }
    let mut v: Vec<SnapshotRow> = match rows {
        Err(f) => {
            return Err(Error::Registry(f));
        },
        Ok(v) => v,
    };
    if v.len() == 0 {
        return Err(Error::NotFound { kind: ResourceKind::Snapshot, id: copied(key) });
    }
    let mut i: usize = 0;
    assert(v@.skip(0) =~= v@);
    while i < v.len() && !same(v[i].id.as_str(), key)
        invariant
            i <= v@.len(),
            snapshot_at(v@, key@) == i + snapshot_at(v@.skip(i as int), key@),
        decreases v@.len() - i,
    {
        assert(v@.skip(i as int).skip(1) =~= v@.skip(i + 1));
        i += 1;
    }
    let i: usize = if i < v.len() {
        i
    } else {
        0
    };
    match row_to_snapshot(v.swap_remove(i)) {
        Ok(s) => Ok(s),
        Err(f) => Err(Error::Registry(f)),
    }
}

/// The sandboxes that rows stand for, in their order.
pub fn all_sandboxes(rows: Result<Vec<SandboxRow>, SqlFailure>) -> (r: Result<Vec<Sandbox>, Error>)
    ensures
        match rows {
            Err(f) => r == Err::<Vec<Sandbox>, Error>(Error::Registry(f)),
            Ok(v) => r matches Ok(list) && list@.len() == v@.len() && forall|i: int|
                0 <= i < v@.len() ==> reads_as(v@[i].id@, v@[i].record(), (#[trigger] list@[i])@),
        },
{
    let v: Vec<SandboxRow> = match rows {
        Err(f) => {
            return Err(Error::Registry(f));
        },
        Ok(v) => v,
    };
    let ghost whole = v@;
    let mut rest: Vec<SandboxRow> = reversed(v);
    let mut list: Vec<Sandbox> = Vec::new();
    while rest.len() > 0
        invariant
            rest@.len() + list@.len() == whole.len(),
            rest@ == whole.skip(list@.len() as int).reverse(),
            forall|i: int|
                0 <= i < list@.len() ==> reads_as(
                    whole[i].id@,
                    whole[i].record(),
                    (#[trigger] list@[i])@,
                ),
        decreases rest@.len(),
    {
        let ghost n = list@.len() as int;
        match rest.pop() {
            Some(row) => {
                assert(row == whole[n]);
                list.push(row_to_sandbox(row));
                assert(rest@ =~= whole.skip(n + 1).reverse());
            },
            None => {},
        }
    }
    Ok(list)
}

/// Position of the first row with a negative size; the number of rows where
/// there is none.
pub open spec fn bad_row(rows: Seq<SnapshotRow>) -> int
    decreases rows.len(),
{
    if rows.len() == 0 || rows[0].size_bytes < 0 {
        0
    } else {
        1 + bad_row(rows.skip(1))
    }
}

/// The snapshots that rows stand for, in their order; the first row with a
/// negative size ends it.
pub fn all_snapshots(rows: Result<Vec<SnapshotRow>, SqlFailure>) -> (r: Result<
    Vec<SnapshotMeta>,
    Error,
>)
    ensures
        match rows {
            Err(f) => r == Err::<Vec<SnapshotMeta>, Error>(Error::Registry(f)),
            Ok(v) => if bad_row(v@) < v@.len() {
                r matches Err(Error::Registry(f)) && !f.constraint && f.message@ == bad_size(
                    v@[bad_row(v@)].size_bytes as int,
                )
            } else {
                r matches Ok(list) && list@.len() == v@.len() && forall|i: int|
                    0 <= i < v@.len() ==> (#[trigger] list@[i])@ == snapshot_facts(
                        v@[i].id@,
                        v@[i].record(),
                    )
            },
        },
        rows matches Ok(v) ==> (r is Ok <==> forall|i: int|
            0 <= i < v@.len() ==> (#[trigger] v@[i]).size_bytes >= 0),
{
    let v: Vec<SnapshotRow> = match rows {
        Err(f) => {
            return Err(Error::Registry(f));
        },
        Ok(v) => v,
    };
    let ghost whole = v@;
    let mut rest: Vec<SnapshotRow> = reversed(v);
    let mut list: Vec<SnapshotMeta> = Vec::new();
    assert(whole.skip(0) =~= whole);
    while rest.len() > 0
        invariant
            rest@.len() + list@.len() == whole.len(),
            rest@ == whole.skip(list@.len() as int).reverse(),
            rows matches Ok(w) && w@ == whole,
            bad_row(whole) == list@.len() + bad_row(whole.skip(list@.len() as int)),
            forall|i: int|
                0 <= i < list@.len() ==> (#[trigger] list@[i])@ == snapshot_facts(
                    whole[i].id@,
                    whole[i].record(),
                ),
            forall|i: int| 0 <= i < list@.len() ==> (#[trigger] whole[i]).size_bytes >= 0,
        decreases rest@.len(),
    {
        let ghost n = list@.len() as int;
        match rest.pop() {
            Some(row) => {
                assert(row == whole[n]);
                assert(whole.skip(n)[0] == whole[n]);
                assert(whole.skip(n).skip(1) =~= whole.skip(n + 1));
                match row_to_snapshot(row) {
                    Ok(s) => {
                        list.push(s);
                    },
                    Err(f) => {
                        return Err(Error::Registry(f));
                    },
                }
                assert(rest@ =~= whole.skip(n + 1).reverse());
            },
            None => {},
        }
    }
    Ok(list)
}

// --- what statements come to -------------------------------------------------

/// What a sandbox is called in messages: by its name, else by its id.
pub open spec fn sandbox_label(f: SandboxFacts) -> Seq<char> {
    match f.name {
        Some(n) => n,
        None => f.id,
    }
}

/// What inserting a sandbox row comes to: a collision means that its id or its
/// name is taken.
pub fn inserted_sandbox(res: Result<usize, SqlFailure>, sb: &Sandbox) -> (r: Result<(), Error>)
    ensures
        match res {
            Ok(_) => r is Ok,
            Err(f) => if f.constraint && !f.dangling {
                r matches Err(e) && e.is_already_exists(ResourceKind::Sandbox, sandbox_label(sb@))
            } else {
                r == Err::<(), Error>(Error::Registry(f))
            },
        },
        r matches Err(Error::AlreadyExists { kind, id }) ==> kind == ResourceKind::Sandbox && id@ == (
        match sb.name {
            Some(n) => n@,
            None => sb.id.0@,
        }),
{
    match res {
        Ok(_) => Ok(()),
        Err(f) => if f.constraint && !f.dangling {
            let id: String = match &sb.name {
                Some(n) => n.clone(),
                None => sb.id.0.clone(),
            };
            Err(Error::AlreadyExists { kind: ResourceKind::Sandbox, id })
        } else {
            Err(Error::Registry(f))
        },
    }
}

/// What inserting a snapshot row comes to: a dangling reference means that
/// there is no such sandbox, any other constraint violation that the row
/// collides with another.
pub fn inserted_snapshot(res: Result<usize, SqlFailure>, snap: &SnapshotMeta) -> (r: Result<
    (),
    Error,
>)
    ensures
        match res {
            Ok(_) => r is Ok,
            Err(f) => match snap@.sandbox_id {
                Some(id) if f.dangling => r matches Err(e) && e.is_not_found(
                    ResourceKind::Sandbox,
                    id,
                ),
                _ => if f.constraint && !f.dangling {
                    r matches Err(e) && e.is_already_exists(ResourceKind::Snapshot, snap@.name)
                } else {
                    r == Err::<(), Error>(Error::Registry(f))
                },
            },
        },
{
    match res {
        Ok(_) => Ok(()),
        Err(f) => {
            if f.dangling {
                return match &snap.sandbox_id {
                    Some(id) => Err(
                        Error::NotFound { kind: ResourceKind::Sandbox, id: id.0.clone() },
                    ),
                    None => Err(Error::Registry(f)),
                };
            }
            if f.constraint {
                Err(Error::AlreadyExists { kind: ResourceKind::Snapshot, id: snap.name.clone() })
            } else {
                Err(Error::Registry(f))
            }
        },
    }
}

/// What updating the row `id` comes to: no row changed means that there is no
/// such row.
pub fn updated(res: Result<usize, SqlFailure>, kind: ResourceKind, id: &str) -> (r: Result<
    (),
    Error,
>)
    ensures
        match res {
            Ok(n) => if n == 0 {
                r matches Err(e) && e.is_not_found(kind, id@)
            } else {
                r is Ok
            },
            Err(f) => r == Err::<(), Error>(Error::Registry(f)),
        },
{
    match res {
        Ok(n) => if n == 0 {
            Err(Error::NotFound { kind, id: copied(id) })
        } else {
            Ok(())
        },
        Err(f) => Err(Error::Registry(f)),
    }
}

/// What removing a row comes to: that there was none is fine.
pub fn removed(res: Result<usize, SqlFailure>) -> (r: Result<(), Error>)
    ensures
        match res {
            Ok(_) => r is Ok,
            Err(f) => r == Err::<(), Error>(Error::Registry(f)),
        },
{
    match res {
        Ok(_) => Ok(()),
        Err(f) => Err(Error::Registry(f)),
    }
}

// --- the registry ------------------------------------------------------------

/// The registry database.
pub struct Registry {
    conn: Connection,
}

/// Default registry path: `$XDG_DATA_HOME/draug/registry.db`, falling back to
/// `~/.local/share/draug/registry.db`.
pub open spec fn default_registry(
    xdg_data_home: Option<Seq<char>>,
    home: Option<Seq<char>>,
) -> Seq<char> {
    let base = match xdg_data_home {
        Some(d) => d,
        None => paths::under(
            match home {
                Some(h) => h,
                None => ""@,
            },
            ".local/share"@,
        ),
    };
    paths::under(base, "draug/registry.db"@)
}

fn text_value(s: &str) -> (r: SqlValue)
    ensures
        r@ == sql::Datum::Text(s@),
{
    SqlValue::Text(copied(s))
}

fn opt_value(s: &Option<String>) -> (r: SqlValue)
    ensures
        r@ == sql::opt_datum(text::opt_view(*s)),
{
    match s {
        Some(s) => SqlValue::Text(s.clone()),
        None => SqlValue::Null,
    }
}

fn sandbox_values(sb: &Sandbox) -> (r: Vec<SqlValue>)
    ensures
        sql::data(r@) == sql::sandbox_data(sb@.id, sandbox_record(sb@)),
{
    let mut v: Vec<SqlValue> = Vec::new();
    v.push(text_value(sb.id.0.as_str()));
    v.push(opt_value(&sb.name));
    v.push(text_value(sb.state.as_str()));
    v.push(text_value(sb.backend.as_str()));
    v.push(text_value(sb.rootfs.as_str()));
    v.push(text_value(sb.state_dir.as_str()));
    v.push(SqlValue::Text(sb.limits.to_json()));
    v.push(SqlValue::Integer(sb.created_at));
    assert(sql::data(v@) =~= sql::sandbox_data(sb@.id, sandbox_record(sb@)));
    v
}

fn snapshot_values(snap: &SnapshotMeta) -> (r: Vec<SqlValue>)
    requires
        snap.size_bytes <= i64::MAX,
    ensures
        sql::data(r@) == sql::snapshot_data(snap@.id, snapshot_record(snap@)),
{
    let mut v: Vec<SqlValue> = Vec::new();
    v.push(text_value(snap.id.0.as_str()));
    v.push(
        match &snap.sandbox_id {
            Some(s) => text_value(s.0.as_str()),
            None => SqlValue::Null,
        },
    );
    v.push(text_value(snap.name.as_str()));
    v.push(text_value(snap.path.as_str()));
    v.push(text_value(snap.rootfs.as_str()));
    v.push(SqlValue::Integer(snap.size_bytes as i64));
    v.push(SqlValue::Integer(snap.created_at));
    assert(sql::data(v@) =~= sql::snapshot_data(snap@.id, snapshot_record(snap@)));
    v
}

fn key_values(key: &str) -> (r: Vec<SqlValue>)
    ensures
        sql::data(r@) == sql::key_data(key@),
{
    let mut v: Vec<SqlValue> = Vec::new();
    v.push(text_value(key));
    assert(sql::data(v@) =~= sql::key_data(key@));
    v
}

fn update_values(key: &str, value: SqlValue) -> (r: Vec<SqlValue>)
    ensures
        sql::data(r@) == sql::update_data(key@, value@),
{
    let mut v: Vec<SqlValue> = Vec::new();
    v.push(text_value(key));
    v.push(value);
    assert(sql::data(v@) =~= sql::update_data(key@, value@));
    v
}

/// The registry's refusal of a size that the database cannot hold.
pub open spec fn oversize(e: Error) -> bool {
    e matches Error::Registry(f) && !f.constraint && f.message@
        == "out of range integral type conversion attempted"@
}

fn oversized() -> (r: Error)
    ensures
        oversize(r),
{
    Error::Registry(
        SqlFailure::plain(copied("out of range integral type conversion attempted")),
    )
}

// --- earlier layouts ---------------------------------------------------------

/// A step that brings a snapshot table of the first layout up to date.
#[derive(Debug, Clone, Copy, PartialEq, Eq, Structural)]
pub enum UpgradeStep {
    AddRootfs,
    FillRootfs,
    AddSize,
}

impl UpgradeStep {
    /// The script that takes the step.
    pub open spec fn script(self) -> Seq<char> {
        match self {
            UpgradeStep::AddRootfs => ADD_ROOTFS@,
            UpgradeStep::FillRootfs => FILL_ROOTFS@,
            UpgradeStep::AddSize => ADD_SIZE@,
        }
    }

    /// This deed takes the step, or shows that somebody else has.
    pub open spec fn settled_by(self, d: sql::Deed) -> bool {
        match d {
            sql::Deed::Ran(s) => s == self.script(),
            sql::Deed::Read(q, n) => n > 0 && match self {
                UpgradeStep::AddRootfs => q == COUNT_ROOTFS@,
                UpgradeStep::FillRootfs => false,
                UpgradeStep::AddSize => q == COUNT_SIZE@,
            },
        }
    }
}

/// A column is added by a script that adds it to the snapshots and gives it a
/// value where there is none; the base images are filled in from the sandboxes
/// that the snapshots are of. A step counts as settled by its script, or, for a
/// column, by the column being there.
pub proof fn law_steps_bring_the_columns(step: UpgradeStep, d: sql::Deed)
    ensures
        UpgradeStep::AddRootfs.script()
            == "ALTER TABLE snapshot ADD COLUMN rootfs TEXT NOT NULL DEFAULT ''"@,
        UpgradeStep::AddSize.script()
            == "ALTER TABLE snapshot ADD COLUMN size_bytes INTEGER NOT NULL DEFAULT 0"@,
        UpgradeStep::FillRootfs.script()
            == "UPDATE snapshot SET rootfs = COALESCE((SELECT sandbox.rootfs FROM sandbox WHERE sandbox.id = snapshot.sandbox_id), '') WHERE rootfs = ''"@,
        step.settled_by(d) <==> (d matches sql::Deed::Ran(s) && s == step.script()) || (
        d matches sql::Deed::Read(q, n) && n > 0 && ((step == UpgradeStep::AddRootfs && q
            == "SELECT count(*) FROM pragma_table_info('snapshot') WHERE name = 'rootfs'"@) || (step
            == UpgradeStep::AddSize && q
            == "SELECT count(*) FROM pragma_table_info('snapshot') WHERE name = 'size_bytes'"@))),
{
}

/// No step.
pub open spec fn no_steps() -> Seq<UpgradeStep> {
    Seq::empty()
}

/// The steps for a snapshot table that has a column for the base image, or has
/// one for the size, or not.
pub open spec fn upgrade_steps(rootfs: bool, size: bool) -> Seq<UpgradeStep> {
    match (rootfs, size) {
        (true, true) => no_steps(),
        (true, false) => seq![UpgradeStep::FillRootfs, UpgradeStep::AddSize],
        (false, true) => seq![UpgradeStep::AddRootfs, UpgradeStep::FillRootfs],
        (false, false) => seq![
            UpgradeStep::AddRootfs,
            UpgradeStep::FillRootfs,
            UpgradeStep::AddSize,
        ],
    }
}

/// How to bring a snapshot table up to date. The column for the size comes last:
/// while it is missing, an upgrade that was left halfway is taken up again.
pub fn plan_upgrade(rootfs: bool, size: bool) -> (r: Vec<UpgradeStep>)
    ensures
        r@ == upgrade_steps(rootfs, size),
        r@.contains(UpgradeStep::AddRootfs) <==> !rootfs,
        r@.contains(UpgradeStep::FillRootfs) <==> !rootfs || !size,
        r@.contains(UpgradeStep::AddSize) <==> !size,
        !size ==> r@.last() == UpgradeStep::AddSize,
        !rootfs ==> r@[0] == UpgradeStep::AddRootfs && r@[1] == UpgradeStep::FillRootfs,
        r@.no_duplicates(),
{
    let mut steps: Vec<UpgradeStep> = Vec::new();
    if !rootfs {
        steps.push(UpgradeStep::AddRootfs);
    }
    if !rootfs || !size {
        steps.push(UpgradeStep::FillRootfs);
    }
    if !size {
        steps.push(UpgradeStep::AddSize);
    }
    proof {
        if !rootfs {
            assert(steps@[0] == UpgradeStep::AddRootfs && steps@[1] == UpgradeStep::FillRootfs);
        } else if !size {
            assert(steps@[0] == UpgradeStep::FillRootfs);
        }
        if !size {
            assert(steps@[steps@.len() - 1] == UpgradeStep::AddSize);
        }
    }
    steps
}

/// Each of the steps was settled, one deed for each, in their order.
pub open spec fn all_settled(steps: Seq<UpgradeStep>, deeds: Seq<sql::Deed>) -> bool {
    &&& deeds.len() == steps.len()
    &&& forall|i: int| 0 <= i < steps.len() ==> (#[trigger] steps[i]).settled_by(deeds[i])
}

/// The deeds of an upgrade: to count both columns, and to settle the steps for
/// what was counted.
pub open spec fn upgrades(deeds: Seq<sql::Deed>) -> bool {
    deeds.len() >= 2 && match (deeds[0], deeds[1]) {
        (sql::Deed::Read(first, rootfs), sql::Deed::Read(second, size)) => first == COUNT_ROOTFS@
            && second == COUNT_SIZE@ && all_settled(
            upgrade_steps(rootfs > 0, size > 0),
            deeds.skip(2),
        ),
        _ => false,
    }
}

/// Takes one step. Another process may take the same step at the same time:
/// where the column is there after all, it did.
fn take_step(conn: &mut Connection, step: UpgradeStep) -> (r: Result<(), SqlFailure>)
    ensures
        sql::same_setup(*old(conn), *final(conn)),
        r is Ok ==> exists|d: sql::Deed| #[trigger]
            step.settled_by(d) && sql::journal(*final(conn)) == sql::journal(*old(conn)).push(d),
{
    let res: Result<(), SqlFailure> = match step {
        UpgradeStep::AddRootfs => run_script(conn, ADD_ROOTFS),
        UpgradeStep::FillRootfs => run_script(conn, FILL_ROOTFS),
        UpgradeStep::AddSize => run_script(conn, ADD_SIZE),
    };
    if res.is_ok() {
        assert(step.settled_by(sql::Deed::Ran(step.script())));
        return res;
    }
    let count: Result<i64, SqlFailure> = match step {
        UpgradeStep::AddRootfs => read_number(conn, COUNT_ROOTFS),
        UpgradeStep::FillRootfs => {
            return res;
        },
        UpgradeStep::AddSize => read_number(conn, COUNT_SIZE),
    };
    match count {
        Ok(n) => if n > 0 {
            assert(step.settled_by(
                sql::Deed::Read(
                    if step == UpgradeStep::AddRootfs {
                        COUNT_ROOTFS@
                    } else {
                        COUNT_SIZE@
                    },
                    n as int,
                ),
            ));
            Ok(())
        } else {
            res
        },
        Err(_) => res,
    }
}

/// Brings a snapshot table of the first layout up to date.
fn upgrade(conn: &mut Connection) -> (r: Result<(), SqlFailure>)
    ensures
        sql::same_setup(*old(conn), *final(conn)),
        r is Ok ==> exists|deeds: Seq<sql::Deed>| #[trigger]
            upgrades(deeds) && sql::journal(*final(conn)) == sql::journal(*old(conn)) + deeds,
{
    let rootfs: i64 = match read_number(conn, COUNT_ROOTFS) {
        Ok(n) => n,
        Err(f) => {
            return Err(f);
        },
    };
    let size: i64 = match read_number(conn, COUNT_SIZE) {
        Ok(n) => n,
        Err(f) => {
            return Err(f);
        },
    };
    let ghost counts = seq![
        sql::Deed::Read(COUNT_ROOTFS@, rootfs as int),
        sql::Deed::Read(COUNT_SIZE@, size as int),
    ];
    let ghost mut settled: Seq<sql::Deed> = Seq::empty();
    let steps: Vec<UpgradeStep> = plan_upgrade(rootfs > 0, size > 0);
    assert(sql::journal(*conn) =~= sql::journal(*old(conn)) + counts + settled);
    let mut i: usize = 0;
    while i < steps.len()
        invariant
            i <= steps@.len(),
            sql::same_setup(*old(conn), *conn),
            sql::journal(*conn) == sql::journal(*old(conn)) + counts + settled,
            all_settled(steps@.take(i as int), settled),
        decreases steps.len() - i,
    {
        let ghost before = sql::journal(*conn);
        match take_step(conn, steps[i]) {
            Ok(()) => {},
            Err(f) => {
                return Err(f);
            },
        }
        proof {
            let d = choose|d: sql::Deed| #[trigger]
                steps@[i as int].settled_by(d) && sql::journal(*conn) == before.push(d);
            let was = settled;
            settled = settled.push(d);
            assert(sql::journal(*conn) =~= sql::journal(*old(conn)) + counts + settled);
            assert forall|k: int| 0 <= k < i + 1 implies (#[trigger] steps@.take(
                i + 1,
            )[k]).settled_by(settled[k]) by {
                if k < i {
                    assert(steps@.take(i as int)[k].settled_by(was[k]));
                }
            }
        }
        i += 1;
    }
    proof {
        let deeds = counts + settled;
        assert(steps@.take(i as int) =~= steps@);
        assert(deeds.skip(2) =~= settled);
        assert(upgrades(deeds));
        assert(sql::journal(*conn) =~= sql::journal(*old(conn)) + deeds);
    }
    Ok(())
}

proof fn lemma_pragma_names()
    ensures
        "journal_mode"@ != "foreign_keys"@,
        "journal_mode"@ != "user_version"@,
        "foreign_keys"@ != "user_version"@,
{
    reveal_strlit("journal_mode");
    reveal_strlit("foreign_keys");
    reveal_strlit("user_version");
    assert("journal_mode"@[0] == 'j' && "foreign_keys"@[0] == 'f' && "user_version"@[0] == 'u');
}

/// What a failure to prepare the database comes to.
pub fn prepared_so_far(res: Result<(), SqlFailure>) -> (r: Result<(), Error>)
    ensures
        match res {
            Ok(()) => r is Ok,
            Err(f) => r == Err::<(), Error>(Error::Registry(f)),
        },
{
    match res {
        Ok(()) => Ok(()),
        Err(f) => Err(Error::Registry(f)),
    }
}

impl Registry {
    /// What the registry holds, as its last operation left or saw it.
    pub closed spec fn tables(self) -> sql::Tables {
        sql::tables_in(self.conn)
    }

    /// The file that the registry is in; none for one of its own.
    pub closed spec fn location(self) -> Option<Seq<char>> {
        sql::location(self.conn)
    }

    /// Whatever tables the registry has are as `sql::SCHEMA` makes them. That
    /// holds of a database without tables, too; that they were created is what
    /// the registry's journal says.
    pub closed spec fn laid_out(self) -> bool {
        sql::laid_out(self.conn)
    }

    /// Nothing else can change the registry.
    pub open spec fn private(self) -> bool {
        self.location() is None
    }

    /// The pragmas that were set.
    pub closed spec fn settings(self) -> Map<Seq<char>, sql::Datum> {
        sql::settings_in(self.conn)
    }

    /// How long an operation waits for another process, in seconds.
    pub closed spec fn patience(self) -> int {
        sql::patience(self.conn)
    }

    /// Snapshots refer to sandboxes that are there, or to none.
    pub closed spec fn enforcing(self) -> bool {
        sql::enforcing(self.conn)
    }

    /// The scripts that were run on the database to create its tables or to bring
    /// them up to date, and what was counted to that end, in their order.
    pub closed spec fn journal(self) -> Seq<sql::Deed> {
        sql::journal(self.conn)
    }

    /// The script that creates the tables that are missing was run to its end,
    /// before anything else.
    pub open spec fn has_schema(self) -> bool {
        self.journal().len() > 0 && self.journal()[0] == sql::Deed::Ran(SCHEMA@)
    }

    /// The registry is set up as every registry is: with its tables; with a
    /// write-ahead log, so that readers do not block; with enforced references;
    /// marked with its layout; and waiting for other processes instead of
    /// failing.
    pub open spec fn prepared(self) -> bool {
        &&& self.has_schema()
        &&& self.settings() == map![
            "journal_mode"@ => sql::Datum::Text("WAL"@),
            "foreign_keys"@ => sql::Datum::Text("ON"@),
            "user_version"@ => sql::Datum::Integer(SCHEMA_VERSION as int),
        ]
        &&& self.patience() == BUSY_SECS
        &&& self.enforcing()
    }

    /// What no operation changes.
    pub open spec fn same_kind(self, before: Registry) -> bool {
        &&& self.location() == before.location()
        &&& self.settings() == before.settings()
        &&& self.patience() == before.patience()
        &&& self.enforcing() == before.enforcing()
        &&& self.journal() == before.journal()
        &&& before.private() && before.laid_out() ==> self.laid_out()
    }

    /// The rows as an operation finds them: of a private registry, as they
    /// were left.
    pub open spec fn found(self, t: sql::Tables) -> bool {
        self.private() ==> t == self.tables()
    }

    /// Looking `key` up among the sandboxes gives `f`, if the tables are laid
    /// out as they should be.
    pub open spec fn finds_sandbox(self, key: Seq<char>, f: SandboxFacts) -> bool {
        self.laid_out() ==> finds_sandbox(self.tables().sandboxes, key, f)
    }

    /// There is no sandbox that `key` names, if the tables are laid out as they
    /// should be.
    pub open spec fn lacks_sandbox(self, key: Seq<char>) -> bool {
        self.laid_out() ==> lacks_sandbox(self.tables().sandboxes, key)
    }

    /// Looking `key` up among the snapshots gives `f`, if the tables are laid
    /// out as they should be.
    pub open spec fn finds_snapshot(self, key: Seq<char>, f: SnapshotFacts) -> bool {
        self.laid_out() ==> finds_snapshot(self.tables().snapshots, key, f)
    }

    /// There is no snapshot that `key` names, if the tables are laid out as they
    /// should be.
    pub open spec fn lacks_snapshot(self, key: Seq<char>) -> bool {
        self.laid_out() ==> lacks_snapshot(self.tables().snapshots, key)
    }

    /// The default registry path, given the two environment variables that it
    /// depends on.
    pub fn default_path(xdg_data_home: Option<&str>, home: Option<&str>) -> (r: String)
        ensures
            r@ == default_registry(
                match xdg_data_home {
                    Some(d) => Some(d@),
                    None => None,
                },
                match home {
                    Some(h) => Some(h@),
                    None => None,
                },
            ),
            xdg_data_home matches Some(d) ==> r@ == paths::under(d@, "draug/registry.db"@),
            xdg_data_home is None && home is Some ==> r@ == paths::under(
                paths::under(home->0@, ".local/share"@),
                "draug/registry.db"@,
            ),
            xdg_data_home is None && home is None ==> r@ == paths::under(
                ".local/share"@,
                "draug/registry.db"@,
            ),
    {
        proof {
            reveal_strlit("");
        }
        let base: String = match xdg_data_home {
            Some(d) => copied(d),
            None => match home {
                Some(h) => join(h, ".local/share"),
                None => join("", ".local/share"),
            },
        };
        join(base.as_str(), "draug/registry.db")
    }

    /// Opens (creating if needed) the registry database at `path`, whose
    /// directory exists. A snapshot table of the first layout gets the columns
    /// that it lacks.
    pub fn open(path: &str) -> (r: Result<Registry, Error>)
        ensures
            r matches Ok(reg) ==> reg.location() == Some(path@) && reg.prepared() && upgrades(
                reg.journal().skip(1),
            ),
            r matches Ok(reg) ==> reg.patience() == 5 && reg.settings()["journal_mode"@]
                == sql::Datum::Text("WAL"@) && reg.settings()["foreign_keys"@] == sql::Datum::Text(
                "ON"@,
            ) && reg.settings()["user_version"@] == sql::Datum::Integer(1),
            r matches Err(e) ==> e is Registry,
    {
        proof {
            lemma_pragma_names();
        }
        match connect(path) {
            Ok(conn) => Self::init(conn, false),
            Err(f) => Err(Error::Registry(f)),
        }
    }

    /// A registry of its own, empty, that is gone with the process.
    pub fn open_in_memory() -> (r: Result<Registry, Error>)
        ensures
            r matches Ok(reg) ==> reg.private() && reg.laid_out() && reg.prepared() && reg.tables()
                == sql::no_tables() && reg.journal().len() == 1,
            r matches Ok(reg) ==> reg.patience() == 5 && reg.settings()["journal_mode"@]
                == sql::Datum::Text("WAL"@) && reg.settings()["foreign_keys"@] == sql::Datum::Text(
                "ON"@,
            ) && reg.settings()["user_version"@] == sql::Datum::Integer(1),
            r matches Err(e) ==> e is Registry,
    {
        proof {
            lemma_pragma_names();
        }
        match connect_in_memory() {
            Ok(conn) => Self::init(conn, true),
            Err(f) => Err(Error::Registry(f)),
        }
    }

    /// Prepares a database, and creates the tables that are missing. One that
    /// is not `fresh` may hold tables of an earlier layout.
    fn init(conn: Connection, fresh: bool) -> (r: Result<Registry, Error>)
        requires
            sql::settings_in(conn) == sql::no_settings(),
            sql::journal(conn) == sql::no_deeds(),
        ensures
            r matches Ok(reg) ==> reg.prepared() && reg.location() == sql::location(conn) && (fresh
                && sql::private(conn) ==> reg.tables() == sql::tables_in(conn) && (
            sql::laid_out(conn) ==> reg.laid_out())) && (if fresh {
                reg.journal().len() == 1
            } else {
                upgrades(reg.journal().skip(1))
            }),
            r matches Err(e) ==> e is Registry,
    {
        let mut conn: Connection = conn;
        match prepared_so_far(set_pragma(&mut conn, "journal_mode", text_value("WAL"))) {
            Ok(()) => {},
            Err(e) => {
                return Err(e);
            },
        }
        match prepared_so_far(set_pragma(&mut conn, "foreign_keys", text_value("ON"))) {
            Ok(()) => {},
            Err(e) => {
                return Err(e);
            },
        }
        match prepared_so_far(wait_when_busy(&mut conn, BUSY_SECS)) {
            Ok(()) => {},
            Err(e) => {
                return Err(e);
            },
        }
        match prepared_so_far(run_script(&mut conn, SCHEMA)) {
            Ok(()) => {},
            Err(e) => {
                return Err(e);
            },
        }
        if !fresh {
            let ghost before = sql::journal(conn);
            match prepared_so_far(upgrade(&mut conn)) {
                Ok(()) => {},
                Err(e) => {
                    return Err(e);
                },
            }
            proof {
                let deeds = choose|deeds: Seq<sql::Deed>| #[trigger]
                    upgrades(deeds) && sql::journal(conn) == before + deeds;
                assert(sql::journal(conn).skip(1) =~= deeds);
            }
        }
        proof {
            reveal_strlit("foreign_keys");
            reveal_strlit("user_version");
            assert("foreign_keys"@[0] != "user_version"@[0]);
        }
        match prepared_so_far(set_pragma(&mut conn, "user_version", SqlValue::Integer(SCHEMA_VERSION))) {
            Ok(()) => {},
            Err(e) => {
                return Err(e);
            },
        }
        Ok(Registry { conn })
    }

    /// Inserts a new sandbox row. `AlreadyExists` means that its id or its
    /// name is taken.
    pub fn insert_sandbox(&mut self, sb: &Sandbox) -> (r: Result<(), Error>)
        ensures
            final(self).same_kind(*old(self)),
            match r {
                Ok(()) => final(self).laid_out() ==> exists|before: sql::Tables| #[trigger]
                    old(self).found(before) && !sql::sandbox_taken(
                        before,
                        sb@.id,
                        sandbox_record(sb@),
                    ) && final(self).tables() == sql::with_sandbox(
                        before,
                        sb@.id,
                        sandbox_record(sb@),
                    ),
                Err(e) => old(self).found(final(self).tables()) && (e is Registry || (
                e.is_already_exists(ResourceKind::Sandbox, sandbox_label(sb@)) && (
                final(self).laid_out() ==> sql::sandbox_taken(
                    final(self).tables(),
                    sb@.id,
                    sandbox_record(sb@),
                )))),
            },
            r is Ok && final(self).laid_out() ==> ({
                let m = final(self).tables().sandboxes;
                &&& m.dom().contains(sb.id.0@)
                &&& m[sb.id.0@].name == text::opt_view(sb.name)
                &&& m[sb.id.0@].state == sb.state.word()
                &&& m[sb.id.0@].backend == sb.backend@
                &&& m[sb.id.0@].rootfs == sb.rootfs@
                &&& m[sb.id.0@].state_dir == sb.state_dir@
                &&& m[sb.id.0@].limits == limits::limits_text(sb.limits)
                &&& m[sb.id.0@].created_at == sb.created_at
            }),
    {
        let values: Vec<SqlValue> = sandbox_values(sb);
        let res: Result<usize, SqlFailure> = execute(&mut self.conn, INSERT_SANDBOX, &values);
        proof {
            if res is Ok && sql::laid_out(self.conn) {
                let n = res->Ok_0;
                let before = choose|before: sql::Tables|
                    (sql::private(old(self).conn) ==> before == sql::tables_in(old(self).conn))
                        && #[trigger] sql::effect(
                        sql::enforcing(old(self).conn),
                        before,
                        INSERT_SANDBOX@,
                        sql::data(values@),
                        sql::tables_in(self.conn),
                        n as int,
                    );
                assert(old(self).found(before));
            }
        }
        inserted_sandbox(res, sb)
    }

    /// Looks up a sandbox by id, or by name if no id matches.
    pub fn get_sandbox(&mut self, id_or_name: &str) -> (r: Result<Sandbox, Error>)
        ensures
            final(self).same_kind(*old(self)),
            old(self).found(final(self).tables()),
            match r {
                Ok(sb) => final(self).finds_sandbox(id_or_name@, sb@),
                Err(e) => e is Registry || (e.is_not_found(ResourceKind::Sandbox, id_or_name@)
                    && final(self).lacks_sandbox(id_or_name@)),
            },
            (r matches Ok(sb) && final(self).laid_out()) ==> ({
                let sb = r->Ok_0;
                let m = final(self).tables().sandboxes;
                &&& m.dom().contains(sb.id.0@)
                &&& sb.id.0@ == id_or_name@ || (!m.dom().contains(id_or_name@) && text::opt_view(sb.name)
                    == Some(id_or_name@))
                &&& text::opt_view(sb.name) == m[sb.id.0@].name
                &&& sb.backend@ == m[sb.id.0@].backend
                &&& sb.rootfs@ == m[sb.id.0@].rootfs
                &&& sb.state_dir@ == m[sb.id.0@].state_dir
                &&& sb.created_at == m[sb.id.0@].created_at
            }),
            (r matches Err(e) && e is NotFound && final(self).laid_out()) ==> forall|id: Seq<char>|
                #[trigger] final(self).tables().sandboxes.dom().contains(id) ==> id != id_or_name@
                    && final(self).tables().sandboxes[id].name != Some(id_or_name@),
    {
        let rows: Result<Vec<SandboxRow>, SqlFailure> = query_sandboxes(
            &mut self.conn,
            FIND_SANDBOX,
            Some(id_or_name),
        );
        proof {
            if rows is Ok && sql::laid_out(self.conn) {
                let v = rows->Ok_0;
                lemma_sandbox_at(v@, id_or_name@);
                let m = sql::sandboxes_in(self.conn);
                assert(sql::sandbox_rows_are(v@, m, Some(id_or_name@)));
                if v@.len() == 0 {
                    assert forall|id: Seq<char>| #[trigger] m.dom().contains(id) implies id
                        != id_or_name@ && m[id].name != Some(id_or_name@) by {
                        if sql::sandbox_wanted(Some(id_or_name@), id, m[id]) {
                            let i = choose|i: int| 0 <= i < v@.len() && (#[trigger] v@[i]).id@ == id;
                            assert(0 <= i < v@.len());
                        }
                    }
                } else if m.dom().contains(id_or_name@) {
                    let i = choose|i: int|
                        0 <= i < v@.len() && (#[trigger] v@[i]).id@ == id_or_name@;
                    assert(v@[i].id@ == id_or_name@);
                }
            }
        }
        pick_sandbox(rows, id_or_name)
    }

    /// All sandboxes, oldest first.
    pub fn list_sandboxes(&mut self) -> (r: Result<Vec<Sandbox>, Error>)
        ensures
            final(self).same_kind(*old(self)),
            old(self).found(final(self).tables()),
            match r {
                Ok(list) => final(self).laid_out() ==> lists_sandboxes(
                    final(self).tables().sandboxes,
                    list@,
                ),
                Err(e) => e is Registry,
            },
            (r matches Ok(list) && final(self).laid_out()) ==> (forall|i: int, j: int|
                0 <= i < j < r->Ok_0@.len() ==> (#[trigger] r->Ok_0@[i]).created_at <= (
                #[trigger] r->Ok_0@[j]).created_at && r->Ok_0@[i].id.0@ != r->Ok_0@[j].id.0@) && (forall|
                id: Seq<char>,
            | #[trigger]
                final(self).tables().sandboxes.dom().contains(id) <==> exists|i: int|
                    0 <= i < r->Ok_0@.len() && (#[trigger] r->Ok_0@[i]).id.0@ == id),
    {
        let rows: Result<Vec<SandboxRow>, SqlFailure> = query_sandboxes(
            &mut self.conn,
            LIST_SANDBOXES,
            None,
        );
        let ghost m = sql::sandboxes_in(self.conn);
        let ghost v = rows->Ok_0;
        let r: Result<Vec<Sandbox>, Error> = all_sandboxes(rows);
        proof {
            if r is Ok && sql::laid_out(self.conn) {
                let list = r->Ok_0@;
                assert(sql::sandbox_rows_are(v@, m, None));
                assert forall|id: Seq<char>| #[trigger] m.dom().contains(id) implies exists|i: int|
                    0 <= i < list.len() && (#[trigger] list[i])@.id == id by {
                    assert(sql::sandbox_wanted(None, id, m[id]));
                    let i = choose|i: int| 0 <= i < v@.len() && (#[trigger] v@[i]).id@ == id;
                    assert(list[i]@.id == id);
                }
                assert forall|i: int, j: int| 0 <= i < j < list.len() implies (
                #[trigger] list[i])@.id != (#[trigger] list[j])@.id && list[i]@.created_at
                    <= list[j]@.created_at by {
                    assert(v@[i].id@ != v@[j].id@);
                }
                assert forall|i: int| 0 <= i < list.len() implies m.dom().contains(
                    (#[trigger] list[i]).id.0@,
                ) by {
                    assert(m.dom().contains(v@[i].id@));
                }
                assert forall|id: Seq<char>| #[trigger] m.dom().contains(id) implies exists|i: int|
                    0 <= i < list.len() && (#[trigger] list[i]).id.0@ == id by {
                    let i = choose|i: int| 0 <= i < list.len() && (#[trigger] list[i])@.id == id;
                    assert(list[i].id.0@ == id);
                }
                assert forall|i: int, j: int| 0 <= i < j < list.len() implies (
                #[trigger] list[i]).created_at <= (#[trigger] list[j]).created_at && list[i].id.0@
                    != list[j].id.0@ by {
                    assert(list[i]@.id != list[j]@.id);
                }
            }
        }
        r
    }

    /// Records a sandbox's state.
    pub fn update_sandbox_state(&mut self, id: &SandboxId, state: SandboxState) -> (r: Result<
        (),
        Error,
    >)
        ensures
            final(self).same_kind(*old(self)),
            match r {
                Ok(()) => final(self).laid_out() ==> exists|before: sql::Tables| #[trigger]
                    old(self).found(before) && before.sandboxes.dom().contains(id.0@) && final(self).tables() == sql::with_state(before, id.0@, state.word()),
                Err(e) => if e is Registry {
                    old(self).found(final(self).tables())
                } else {
                    e.is_not_found(ResourceKind::Sandbox, id.0@) && (final(self).laid_out()
                        ==> old(self).found(final(self).tables())
                        && !final(self).tables().sandboxes.dom().contains(id.0@))
                },
            },
            r is Ok && final(self).laid_out() ==> final(self).tables().sandboxes.dom().contains(id.0@)
                && final(self).tables().sandboxes[id.0@].state == state.word(),
    {
        let values: Vec<SqlValue> = update_values(id.0.as_str(), text_value(state.as_str()));
        let res: Result<usize, SqlFailure> = execute(&mut self.conn, SET_STATE, &values);
        proof {
            if res is Ok && sql::laid_out(self.conn) {
                assert(sql::data(values@) == sql::update_data(
                    id.0@,
                    sql::Datum::Text(state.word()),
                ));
                let n = res->Ok_0;
                let before = choose|before: sql::Tables|
                    (sql::private(old(self).conn) ==> before == sql::tables_in(old(self).conn))
                        && #[trigger] sql::effect(
                        sql::enforcing(old(self).conn),
                        before,
                        SET_STATE@,
                        sql::data(values@),
                        sql::tables_in(self.conn),
                        n as int,
                    );
                assert(old(self).found(before));
            }
        }
        updated(res, ResourceKind::Sandbox, id.0.as_str())
    }

    /// Removes a sandbox row; that there is none is fine. Its snapshots stay,
    /// without a sandbox.
    pub fn remove_sandbox(&mut self, id: &SandboxId) -> (r: Result<(), Error>)
        ensures
            final(self).same_kind(*old(self)),
            match r {
                Ok(()) => final(self).laid_out() ==> exists|before: sql::Tables| #[trigger]
                    old(self).found(before) && final(self).tables() == sql::without_sandbox(
                        old(self).enforcing(),
                        before,
                        id.0@,
                    ),
                Err(e) => e is Registry && old(self).found(final(self).tables()),
            },
            r is Ok && final(self).laid_out() ==> !final(self).tables().sandboxes.dom().contains(id.0@),
    {
        let values: Vec<SqlValue> = key_values(id.0.as_str());
        let res: Result<usize, SqlFailure> = execute(&mut self.conn, DELETE_SANDBOX, &values);
        proof {
            if res is Ok && sql::laid_out(self.conn) {
                let n = res->Ok_0;
                let before = choose|before: sql::Tables|
                    (sql::private(old(self).conn) ==> before == sql::tables_in(old(self).conn))
                        && #[trigger] sql::effect(
                        sql::enforcing(old(self).conn),
                        before,
                        DELETE_SANDBOX@,
                        sql::data(values@),
                        sql::tables_in(self.conn),
                        n as int,
                    );
                assert(old(self).found(before));
            }
        }
        removed(res)
    }

    /// Inserts a new snapshot row. `AlreadyExists` means that its id is taken, or
    /// that its sandbox has a snapshot of that name; `NotFound`, that there is no
    /// such sandbox.
    pub fn insert_snapshot(&mut self, snap: &SnapshotMeta) -> (r: Result<(), Error>)
        ensures
            final(self).same_kind(*old(self)),
            match r {
                Ok(()) => snap.size_bytes <= i64::MAX && (final(self).laid_out() ==> exists|
                    before: sql::Tables,
                | #[trigger]
                    old(self).found(before) && !sql::snapshot_refused(
                        old(self).enforcing(),
                        before,
                        snap@.id,
                        snapshot_record(snap@),
                    ) && final(self).tables() == sql::with_snapshot(
                        before,
                        snap@.id,
                        snapshot_record(snap@),
                    )),
                Err(e) => old(self).found(final(self).tables()) && (snap.size_bytes > i64::MAX
                    ==> oversize(e)) && (e is Registry || (e.is_already_exists(
                    ResourceKind::Snapshot,
                    snap@.name,
                ) && (final(self).laid_out() ==> sql::snapshot_taken(
                    final(self).tables(),
                    snap@.id,
                    snapshot_record(snap@),
                ))) || (snap@.sandbox_id matches Some(id) && e.is_not_found(
                    ResourceKind::Sandbox,
                    id,
                ) && (final(self).laid_out() ==> sql::sandbox_missing(
                    old(self).enforcing(),
                    final(self).tables(),
                    snapshot_record(snap@),
                )))),
            },
            r is Ok && final(self).laid_out() ==> ({
                let m = final(self).tables().snapshots;
                &&& m.dom().contains(snap.id.0@)
                &&& m[snap.id.0@].sandbox_id == snap@.sandbox_id
                &&& m[snap.id.0@].name == snap.name@
                &&& m[snap.id.0@].path == snap.path@
                &&& m[snap.id.0@].rootfs == snap.rootfs@
                &&& m[snap.id.0@].size_bytes == snap.size_bytes
                &&& m[snap.id.0@].created_at == snap.created_at
            }),
    {
        if snap.size_bytes > i64::MAX as u64 {
            return Err(oversized());
        }
        let values: Vec<SqlValue> = snapshot_values(snap);
        let res: Result<usize, SqlFailure> = execute(&mut self.conn, INSERT_SNAPSHOT, &values);
        proof {
            if res is Ok && sql::laid_out(self.conn) {
                let n = res->Ok_0;
                let before = choose|before: sql::Tables|
                    (sql::private(old(self).conn) ==> before == sql::tables_in(old(self).conn))
                        && #[trigger] sql::effect(
                        sql::enforcing(old(self).conn),
                        before,
                        INSERT_SNAPSHOT@,
                        sql::data(values@),
                        sql::tables_in(self.conn),
                        n as int,
                    );
                assert(old(self).found(before));
            }
        }
        inserted_snapshot(res, snap)
    }

    /// Looks up a snapshot by id, or by name if no id matches.
    pub fn get_snapshot(&mut self, id_or_name: &str) -> (r: Result<SnapshotMeta, Error>)
        ensures
            final(self).same_kind(*old(self)),
            old(self).found(final(self).tables()),
            match r {
                Ok(s) => final(self).finds_snapshot(id_or_name@, s@),
                Err(e) => e is Registry || (e.is_not_found(ResourceKind::Snapshot, id_or_name@)
                    && final(self).lacks_snapshot(id_or_name@)),
            },
            (r matches Ok(s) && final(self).laid_out()) ==> ({
                let s = r->Ok_0;
                let m = final(self).tables().snapshots;
                &&& m.dom().contains(s.id.0@)
                &&& s.id.0@ == id_or_name@ || (!m.dom().contains(id_or_name@) && s.name@
                    == id_or_name@)
                &&& s@.sandbox_id == m[s.id.0@].sandbox_id
                &&& s.name@ == m[s.id.0@].name
                &&& s.path@ == m[s.id.0@].path
                &&& s.rootfs@ == m[s.id.0@].rootfs
                &&& s.size_bytes == m[s.id.0@].size_bytes
                &&& s.created_at == m[s.id.0@].created_at
            }),
            (r matches Err(e) && e is NotFound && final(self).laid_out()) ==> forall|id: Seq<char>|
                #[trigger] final(self).tables().snapshots.dom().contains(id) ==> id != id_or_name@
                    && final(self).tables().snapshots[id].name != id_or_name@,
    {
        let rows: Result<Vec<SnapshotRow>, SqlFailure> = query_snapshots(
            &mut self.conn,
            FIND_SNAPSHOT,
            Some(id_or_name),
        );
        proof {
            if rows is Ok && sql::laid_out(self.conn) {
                let v = rows->Ok_0;
                lemma_snapshot_at(v@, id_or_name@);
                let m = sql::snapshots_in(self.conn);
                assert(sql::filter_data(Some(id_or_name@)) == sql::key_data(id_or_name@));
                assert(sql::snapshot_rows_are(v@, m, sql::called(id_or_name@)));
                if v@.len() == 0 {
                    assert forall|id: Seq<char>| #[trigger] m.dom().contains(id) implies id
                        != id_or_name@ && m[id].name != id_or_name@ by {
                        if sql::called(id_or_name@)(id, m[id]) {
                            let i = choose|i: int| 0 <= i < v@.len() && (#[trigger] v@[i]).id@ == id;
                            assert(0 <= i < v@.len());
                        }
                    }
                } else if m.dom().contains(id_or_name@) {
                    assert(sql::called(id_or_name@)(id_or_name@, m[id_or_name@]));
                    let i = choose|i: int|
                        0 <= i < v@.len() && (#[trigger] v@[i]).id@ == id_or_name@;
                    assert(v@[i].id@ == id_or_name@);
                }
            }
        }
        pick_snapshot(rows, id_or_name)
    }

    /// Snapshots, optionally restricted to one sandbox, oldest first.
    pub fn list_snapshots(&mut self, sandbox: Option<&SandboxId>) -> (r: Result<
        Vec<SnapshotMeta>,
        Error,
    >)
        ensures
            final(self).same_kind(*old(self)),
            old(self).found(final(self).tables()),
            match r {
                Ok(list) => final(self).laid_out() ==> lists_snapshots(
                    final(self).tables().snapshots,
                    match sandbox {
                        Some(s) => Some(s.0@),
                        None => None,
                    },
                    list@,
                ),
                Err(e) => e is Registry,
            },
            (r matches Ok(list) && final(self).laid_out()) ==> (forall|i: int, j: int|
                0 <= i < j < r->Ok_0@.len() ==> (#[trigger] r->Ok_0@[i]).created_at <= (
                #[trigger] r->Ok_0@[j]).created_at && r->Ok_0@[i].id.0@ != r->Ok_0@[j].id.0@) && (forall|
                i: int,
            |
                0 <= i < r->Ok_0@.len() ==> final(self).tables().snapshots.dom().contains(
                    (#[trigger] r->Ok_0@[i]).id.0@,
                ) && (sandbox matches Some(s) ==> r->Ok_0@[i]@.sandbox_id == Some(s.0@))) && (forall|
                id: Seq<char>,
            | #[trigger]
                final(self).tables().snapshots.dom().contains(id) && (sandbox matches Some(s) ==> final(self).tables().snapshots[id].sandbox_id
                    == Some(s.0@)) ==> exists|i: int|
                    0 <= i < r->Ok_0@.len() && (#[trigger] r->Ok_0@[i]).id.0@ == id),
    {
        let key: Option<&str> = match sandbox {
            Some(s) => Some(s.0.as_str()),
            None => None,
        };
        let rows: Result<Vec<SnapshotRow>, SqlFailure> = query_snapshots(
            &mut self.conn,
            LIST_SNAPSHOTS,
            key,
        );
        let ghost m = sql::snapshots_in(self.conn);
        let ghost v = rows->Ok_0;
        let ghost of = match sandbox {
            Some(s) => Some(s.0@),
            None => None,
        };
        let r: Result<Vec<SnapshotMeta>, Error> = all_snapshots(rows);
        proof {
            if r is Ok && sql::laid_out(self.conn) {
                let list = r->Ok_0@;
                assert(sql::snapshot_rows_are(v@, m, sql::taken_of(of)));
                assert forall|id: Seq<char>| #[trigger]
                    m.dom().contains(id) && (of is None || m[id].sandbox_id == of) implies exists|
                    i: int,
                |
                    0 <= i < list.len() && (#[trigger] list[i])@.id == id by {
                    assert(sql::taken_of(of)(id, m[id]));
                    let i = choose|i: int| 0 <= i < v@.len() && (#[trigger] v@[i]).id@ == id;
                    assert(list[i]@.id == id);
                }
                assert forall|i: int| 0 <= i < list.len() implies m.dom().contains(
                    (#[trigger] list[i])@.id,
                ) && list[i]@ == snapshot_facts(list[i]@.id, m[list[i]@.id]) && (of is None
                    || list[i]@.sandbox_id == of) by {
                    assert(sql::taken_of(of)(v@[i].id@, v@[i].record()));
                }
                assert forall|i: int, j: int| 0 <= i < j < list.len() implies (
                #[trigger] list[i])@.id != (#[trigger] list[j])@.id && list[i]@.created_at
                    <= list[j]@.created_at by {
                    assert(v@[i].id@ != v@[j].id@);
                }
                assert forall|i: int| 0 <= i < list.len() implies m.dom().contains(
                    (#[trigger] list[i]).id.0@,
                ) && (sandbox matches Some(s) ==> list[i]@.sandbox_id == Some(s.0@)) by {
                    assert(m.dom().contains(list[i]@.id));
                }
                assert forall|id: Seq<char>| #[trigger]
                    m.dom().contains(id) && (sandbox matches Some(s) ==> m[id].sandbox_id == Some(
                        s.0@,
                    )) implies exists|i: int| 0 <= i < list.len() && (#[trigger] list[i]).id.0@
                    == id by {
                    let i = choose|i: int| 0 <= i < list.len() && (#[trigger] list[i])@.id == id;
                    assert(list[i].id.0@ == id);
                }
                assert forall|i: int, j: int| 0 <= i < j < list.len() implies (
                #[trigger] list[i]).created_at <= (#[trigger] list[j]).created_at && list[i].id.0@
                    != list[j].id.0@ by {
                    assert(list[i]@.id != list[j]@.id);
                }
            }
        }
        r
    }

    /// Records the size of a captured layer.
    pub fn set_snapshot_size(&mut self, id: &SnapshotId, size: u64) -> (r: Result<(), Error>)
        ensures
            final(self).same_kind(*old(self)),
            match r {
                Ok(()) => size <= i64::MAX && (final(self).laid_out() ==> exists|
                    before: sql::Tables,
                | #[trigger]
                    old(self).found(before) && before.snapshots.dom().contains(id.0@) && final(self).tables() == sql::with_size(before, id.0@, size as int)),
                Err(e) => (size > i64::MAX ==> oversize(e)) && (if e is Registry {
                    old(self).found(final(self).tables())
                } else {
                    e.is_not_found(ResourceKind::Snapshot, id.0@) && (final(self).laid_out()
                        ==> old(self).found(final(self).tables())
                        && !final(self).tables().snapshots.dom().contains(id.0@))
                }),
            },
            r is Ok && final(self).laid_out() ==> final(self).tables().snapshots.dom().contains(id.0@)
                && final(self).tables().snapshots[id.0@].size_bytes == size,
    {
        if size > i64::MAX as u64 {
            return Err(oversized());
        }
        let values: Vec<SqlValue> = update_values(id.0.as_str(), SqlValue::Integer(size as i64));
        let res: Result<usize, SqlFailure> = execute(&mut self.conn, SET_SIZE, &values);
        proof {
            if res is Ok && sql::laid_out(self.conn) {
                assert(sql::data(values@) == sql::update_data(
                    id.0@,
                    sql::Datum::Integer(size as int),
                ));
                let n = res->Ok_0;
                let before = choose|before: sql::Tables|
                    (sql::private(old(self).conn) ==> before == sql::tables_in(old(self).conn))
                        && #[trigger] sql::effect(
                        sql::enforcing(old(self).conn),
                        before,
                        SET_SIZE@,
                        sql::data(values@),
                        sql::tables_in(self.conn),
                        n as int,
                    );
                assert(old(self).found(before));
            }
        }
        updated(res, ResourceKind::Snapshot, id.0.as_str())
    }

    /// Removes a snapshot row; that there is none is fine.
    pub fn remove_snapshot(&mut self, id: &SnapshotId) -> (r: Result<(), Error>)
        ensures
            final(self).same_kind(*old(self)),
            match r {
                Ok(()) => final(self).laid_out() ==> exists|before: sql::Tables| #[trigger]
                    old(self).found(before) && final(self).tables() == sql::without_snapshot(
                        before,
                        id.0@,
                    ),
                Err(e) => e is Registry && old(self).found(final(self).tables()),
            },
            r is Ok && final(self).laid_out() ==> !final(self).tables().snapshots.dom().contains(id.0@),
    {
        let values: Vec<SqlValue> = key_values(id.0.as_str());
        let res: Result<usize, SqlFailure> = execute(&mut self.conn, DELETE_SNAPSHOT, &values);
        proof {
            if res is Ok && sql::laid_out(self.conn) {
                let n = res->Ok_0;
                let before = choose|before: sql::Tables|
                    (sql::private(old(self).conn) ==> before == sql::tables_in(old(self).conn))
                        && #[trigger] sql::effect(
                        sql::enforcing(old(self).conn),
                        before,
                        DELETE_SNAPSHOT@,
                        sql::data(values@),
                        sql::tables_in(self.conn),
                        n as int,
                    );
                assert(old(self).found(before));
            }
        }
        removed(res)
    }
}

// --- laws --------------------------------------------------------------------

/// No two sandboxes have one name, and no two snapshots of one sandbox.
pub open spec fn names_unique(t: sql::Tables) -> bool {
    &&& forall|a: Seq<char>, b: Seq<char>|
        #![trigger t.sandboxes.dom().contains(a), t.sandboxes.dom().contains(b)]
        t.sandboxes.dom().contains(a) && t.sandboxes.dom().contains(b) && t.sandboxes[a].name is Some
            && t.sandboxes[a].name == t.sandboxes[b].name ==> a == b
    &&& forall|a: Seq<char>, b: Seq<char>|
        #![trigger t.snapshots.dom().contains(a), t.snapshots.dom().contains(b)]
        t.snapshots.dom().contains(a) && t.snapshots.dom().contains(b)
            && t.snapshots[a].sandbox_id is Some && t.snapshots[a].sandbox_id
            == t.snapshots[b].sandbox_id && t.snapshots[a].name == t.snapshots[b].name ==> a == b
}

/// Every operation keeps names unique.
pub proof fn law_names_stay_unique(
    enforced: bool,
    t: sql::Tables,
    sb: SandboxFacts,
    snap: SnapshotFacts,
    id: Seq<char>,
    state: SandboxState,
    size: int,
)
    requires
        names_unique(t),
    ensures
        names_unique(sql::no_tables()),
        !sql::sandbox_taken(t, sb.id, sandbox_record(sb)) ==> names_unique(
            sql::with_sandbox(t, sb.id, sandbox_record(sb)),
        ),
        !sql::snapshot_refused(enforced, t, snap.id, snapshot_record(snap)) ==> names_unique(
            sql::with_snapshot(t, snap.id, snapshot_record(snap)),
        ),
        names_unique(sql::with_state(t, id, state.word())),
        names_unique(sql::with_size(t, id, size)),
        names_unique(sql::without_sandbox(enforced, t, id)),
        names_unique(sql::without_snapshot(t, id)),
{
}

/// A list of all sandboxes has as many entries as there are sandboxes.
pub proof fn law_sandboxes_are_listed_once(
    m: Map<Seq<char>, sql::SandboxRecord>,
    list: Seq<Sandbox>,
)
    requires
        lists_sandboxes(m, list),
    ensures
        m.dom().finite(),
        m.dom().len() == list.len(),
{
    let ids = list.map_values(|s: Sandbox| s@.id);
    assert(ids.no_duplicates()) by {
        assert forall|i: int, j: int| 0 <= i < ids.len() && 0 <= j < ids.len() && i != j implies ids[i]
            != ids[j] by {
            assert(ids[i] == list[i]@.id && ids[j] == list[j]@.id);
        }
    }
    ids.unique_seq_to_set();
    assert(m.dom() =~= ids.to_set()) by {
        assert forall|id: Seq<char>| m.dom().contains(id) implies ids.to_set().contains(id) by {
            let i = choose|i: int| 0 <= i < list.len() && (#[trigger] list[i])@.id == id;
            assert(ids[i] == id);
        }
        assert forall|id: Seq<char>| ids.to_set().contains(id) implies m.dom().contains(id) by {
            let i = choose|i: int| 0 <= i < ids.len() && ids[i] == id;
            assert(list[i]@.id == id);
        }
    }
}

/// A sandbox that was inserted is what looking its id up finds, and what
/// looking its name up finds unless that is another sandbox's id.
pub proof fn law_inserted_sandbox_is_found(
    before: sql::Tables,
    sb: SandboxFacts,
    key: Seq<char>,
    got: SandboxFacts,
)
    requires
        sb.limits.wf(),
        !sql::sandbox_taken(before, sb.id, sandbox_record(sb)),
        key == sb.id || (Some(key) == sb.name && !before.sandboxes.dom().contains(key)),
        finds_sandbox(sql::with_sandbox(before, sb.id, sandbox_record(sb)).sandboxes, key, got),
    ensures
        got == sb,
        !lacks_sandbox(sql::with_sandbox(before, sb.id, sandbox_record(sb)).sandboxes, key),
{
    let after = sql::with_sandbox(before, sb.id, sandbox_record(sb)).sandboxes;
    crate::types::law_state_roundtrip(sb.state, sb.state);
    assert(after.dom().contains(sb.id));
    if got.id != sb.id {
        assert(before.sandboxes.dom().contains(got.id));
        assert(before.sandboxes[got.id].name == sb.name);
    }
    assert(got.id == sb.id);
    assert(sandbox_record(sb).limits == limits::limits_text(sb.limits));
}

/// A snapshot that was inserted is what looking its id up finds.
pub proof fn law_inserted_snapshot_is_found(
    before: sql::Tables,
    snap: SnapshotFacts,
    got: SnapshotFacts,
)
    requires
        finds_snapshot(
            sql::with_snapshot(before, snap.id, snapshot_record(snap)).snapshots,
            snap.id,
            got,
        ),
    ensures
        got == snap,
        !lacks_snapshot(
            sql::with_snapshot(before, snap.id, snapshot_record(snap)).snapshots,
            snap.id,
        ),
{
    let after = sql::with_snapshot(before, snap.id, snapshot_record(snap)).snapshots;
    assert(after.dom().contains(snap.id));
}

/// Changing a sandbox's state changes that and nothing else.
pub proof fn law_state_is_updated(
    before: sql::Tables,
    id: Seq<char>,
    state: SandboxState,
    was: SandboxFacts,
    is: SandboxFacts,
)
    requires
        was.limits.wf(),
        finds_sandbox(before.sandboxes, id, was),
        was.id == id,
        finds_sandbox(sql::with_state(before, id, state.word()).sandboxes, id, is),
    ensures
        is == (SandboxFacts { state, ..was }),
        sql::with_state(before, id, state.word()).snapshots == before.snapshots,
        forall|other: Seq<char>|
            other != id && before.sandboxes.dom().contains(other) ==> #[trigger] sql::with_state(
                before,
                id,
                state.word(),
            ).sandboxes[other] == before.sandboxes[other],
{
    crate::types::law_state_roundtrip(state, state);
}

/// A removed sandbox is gone, removing it again changes nothing, and every
/// snapshot survives: those of the sandbox without it, the others unchanged.
pub proof fn law_removal_orphans_snapshots(t: sql::Tables, id: Seq<char>)
    ensures
        !sql::without_sandbox(true, t, id).sandboxes.dom().contains(id),
        sql::without_sandbox(true, sql::without_sandbox(true, t, id), id) == sql::without_sandbox(
            true,
            t,
            id,
        ),
        sql::without_sandbox(true, t, id).snapshots.dom() == t.snapshots.dom(),
        forall|s: Seq<char>|
            t.snapshots.dom().contains(s) && t.sandboxes.dom().contains(id) ==> (
            #[trigger] sql::without_sandbox(true, t, id).snapshots[s]) == sql::orphaned(
                t.snapshots[s],
                id,
            ),
        !t.sandboxes.dom().contains(id) ==> sql::without_sandbox(true, t, id) == t,
{
    let u = sql::without_sandbox(true, t, id);
    assert(u.snapshots.dom() =~= t.snapshots.dom());
    assert(u.sandboxes.remove(id) =~= u.sandboxes);
    if !t.sandboxes.dom().contains(id) {
        assert(u.sandboxes =~= t.sandboxes);
    }
}

} // verus!
