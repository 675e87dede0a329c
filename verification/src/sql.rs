//! The registry's tables and what the SQL statements on them do.

use vstd::prelude::*;

use rusqlite::Connection;

use crate::error::SqlFailure;

verus! {

/// The registry's two tables. A name identifies at most one sandbox, and at
/// most one snapshot of a sandbox. Removing a sandbox orphans its snapshots.
pub const SCHEMA: &'static str = "
CREATE TABLE IF NOT EXISTS sandbox (
    id         TEXT PRIMARY KEY,
    name       TEXT UNIQUE,
    state      TEXT NOT NULL,
    backend    TEXT NOT NULL,
    rootfs     TEXT NOT NULL,
    state_dir  TEXT NOT NULL,
    limits     TEXT NOT NULL,
    created_at INTEGER NOT NULL
);
CREATE TABLE IF NOT EXISTS snapshot (
    id         TEXT PRIMARY KEY,
    sandbox_id TEXT REFERENCES sandbox(id) ON DELETE SET NULL,
    name       TEXT NOT NULL,
    path       TEXT NOT NULL,
    rootfs     TEXT NOT NULL,
    size_bytes INTEGER NOT NULL,
    created_at INTEGER NOT NULL,
    UNIQUE (sandbox_id, name)
);
";

/// Gives a snapshot table of the first layout the base image's column.
pub const ADD_ROOTFS: &'static str = "ALTER TABLE snapshot ADD COLUMN rootfs TEXT NOT NULL DEFAULT ''";

/// Gives a snapshot table of the first layout the size's column.
pub const ADD_SIZE: &'static str = "ALTER TABLE snapshot ADD COLUMN size_bytes INTEGER NOT NULL DEFAULT 0";

/// Gives each snapshot without a base image that of its sandbox, if the sandbox
/// is still there.
pub const FILL_ROOTFS: &'static str = "UPDATE snapshot SET rootfs = COALESCE((SELECT sandbox.rootfs FROM sandbox WHERE sandbox.id = snapshot.sandbox_id), '') WHERE rootfs = ''";

/// How many columns the snapshot table has for the base image: one or none.
pub const COUNT_ROOTFS: &'static str = "SELECT count(*) FROM pragma_table_info('snapshot') WHERE name = 'rootfs'";

/// How many columns the snapshot table has for the size: one or none.
pub const COUNT_SIZE: &'static str = "SELECT count(*) FROM pragma_table_info('snapshot') WHERE name = 'size_bytes'";

pub const INSERT_SANDBOX: &'static str = "INSERT INTO sandbox (id, name, state, backend, rootfs, state_dir, limits, created_at) VALUES (?1, ?2, ?3, ?4, ?5, ?6, ?7, ?8)";

pub const FIND_SANDBOX: &'static str = "SELECT id, name, state, backend, rootfs, state_dir, limits, created_at FROM sandbox WHERE id = ?1 OR name = ?1";

pub const LIST_SANDBOXES: &'static str = "SELECT id, name, state, backend, rootfs, state_dir, limits, created_at FROM sandbox ORDER BY created_at";

pub const SET_STATE: &'static str = "UPDATE sandbox SET state = ?2 WHERE id = ?1";

pub const DELETE_SANDBOX: &'static str = "DELETE FROM sandbox WHERE id = ?1";

pub const INSERT_SNAPSHOT: &'static str = "INSERT INTO snapshot (id, sandbox_id, name, path, rootfs, size_bytes, created_at) VALUES (?1, ?2, ?3, ?4, ?5, ?6, ?7)";

pub const FIND_SNAPSHOT: &'static str = "SELECT id, sandbox_id, name, path, rootfs, size_bytes, created_at FROM snapshot WHERE id = ?1 OR name = ?1";

pub const LIST_SNAPSHOTS: &'static str = "SELECT id, sandbox_id, name, path, rootfs, size_bytes, created_at FROM snapshot WHERE ?1 IS NULL OR sandbox_id = ?1 ORDER BY created_at";

pub const SET_SIZE: &'static str = "UPDATE snapshot SET size_bytes = ?2 WHERE id = ?1";

pub const DELETE_SNAPSHOT: &'static str = "DELETE FROM snapshot WHERE id = ?1";

// --- rows --------------------------------------------------------------------

/// The columns of a sandbox row other than its id.
pub struct SandboxRecord {
    pub name: Option<Seq<char>>,
    pub state: Seq<char>,
    pub backend: Seq<char>,
    pub rootfs: Seq<char>,
    pub state_dir: Seq<char>,
    pub limits: Seq<char>,
    pub created_at: int,
}

/// The columns of a snapshot row other than its id.
pub struct SnapshotRecord {
    pub sandbox_id: Option<Seq<char>>,
    pub name: Seq<char>,
    pub path: Seq<char>,
    pub rootfs: Seq<char>,
    pub size_bytes: int,
    pub created_at: int,
}

/// What the two tables hold, by id.
pub struct Tables {
    pub sandboxes: Map<Seq<char>, SandboxRecord>,
    pub snapshots: Map<Seq<char>, SnapshotRecord>,
}

/// Two empty tables.
pub open spec fn no_tables() -> Tables {
    Tables { sandboxes: Map::empty(), snapshots: Map::empty() }
}

/// A sandbox row as it is read.
#[derive(Debug)]
pub struct SandboxRow {
    pub id: String,
    pub name: Option<String>,
    pub state: String,
    pub backend: String,
    pub rootfs: String,
    pub state_dir: String,
    pub limits: String,
    pub created_at: i64,
}

impl SandboxRow {
    pub open spec fn record(self) -> SandboxRecord {
        SandboxRecord {
            name: crate::text::opt_view(self.name),
            state: self.state@,
            backend: self.backend@,
            rootfs: self.rootfs@,
            state_dir: self.state_dir@,
            limits: self.limits@,
            created_at: self.created_at as int,
        }
    }
}

/// A snapshot row as it is read.
#[derive(Debug)]
pub struct SnapshotRow {
    pub id: String,
    pub sandbox_id: Option<String>,
    pub name: String,
    pub path: String,
    pub rootfs: String,
    pub size_bytes: i64,
    pub created_at: i64,
}

impl SnapshotRow {
    pub open spec fn record(self) -> SnapshotRecord {
        SnapshotRecord {
            sandbox_id: crate::text::opt_view(self.sandbox_id),
            name: self.name@,
            path: self.path@,
            rootfs: self.rootfs@,
            size_bytes: self.size_bytes as int,
            created_at: self.created_at as int,
        }
    }
}

/// A value bound to a statement's parameter.
#[derive(Debug)]
pub enum SqlValue {
    Null,
    Integer(i64),
    Text(String),
}

/// What a `SqlValue` says, over mathematical values.
pub enum Datum {
    Null,
    Integer(int),
    Text(Seq<char>),
}

impl View for SqlValue {
    type V = Datum;

    open spec fn view(&self) -> Datum {
        match *self {
            SqlValue::Null => Datum::Null,
            SqlValue::Integer(n) => Datum::Integer(n as int),
            SqlValue::Text(s) => Datum::Text(s@),
        }
    }
}

/// What each bound value says.
pub open spec fn data(v: Seq<SqlValue>) -> Seq<Datum> {
    v.map_values(|x: SqlValue| x@)
}

/// An optional text as a bound value.
pub open spec fn opt_datum(t: Option<Seq<char>>) -> Datum {
    match t {
        Some(s) => Datum::Text(s),
        None => Datum::Null,
    }
}

/// A sandbox row as bound values.
pub open spec fn sandbox_data(id: Seq<char>, r: SandboxRecord) -> Seq<Datum> {
    seq![
        Datum::Text(id),
        opt_datum(r.name),
        Datum::Text(r.state),
        Datum::Text(r.backend),
        Datum::Text(r.rootfs),
        Datum::Text(r.state_dir),
        Datum::Text(r.limits),
        Datum::Integer(r.created_at),
    ]
}

/// A snapshot row as bound values.
pub open spec fn snapshot_data(id: Seq<char>, r: SnapshotRecord) -> Seq<Datum> {
    seq![
        Datum::Text(id),
        opt_datum(r.sandbox_id),
        Datum::Text(r.name),
        Datum::Text(r.path),
        Datum::Text(r.rootfs),
        Datum::Integer(r.size_bytes),
        Datum::Integer(r.created_at),
    ]
}

/// A key as the only bound value.
pub open spec fn key_data(key: Seq<char>) -> Seq<Datum> {
    seq![Datum::Text(key)]
}

/// An optional key as the only bound value.
pub open spec fn filter_data(key: Option<Seq<char>>) -> Seq<Datum> {
    seq![opt_datum(key)]
}

/// A key and a new column value as bound values.
pub open spec fn update_data(key: Seq<char>, value: Datum) -> Seq<Datum> {
    seq![Datum::Text(key), value]
}

// --- statements --------------------------------------------------------------

/// The id or the name of a new sandbox row is taken.
pub open spec fn sandbox_taken(t: Tables, id: Seq<char>, r: SandboxRecord) -> bool {
    t.sandboxes.dom().contains(id) || (r.name is Some && exists|k: Seq<char>|
        #[trigger] t.sandboxes.dom().contains(k) && t.sandboxes[k].name == r.name)
}

/// A new snapshot row collides with one that is there: its id is taken, or its
/// sandbox has a snapshot of that name.
pub open spec fn snapshot_taken(t: Tables, id: Seq<char>, r: SnapshotRecord) -> bool {
    ||| t.snapshots.dom().contains(id)
    ||| r.sandbox_id is Some && exists|k: Seq<char>| #[trigger]
        t.snapshots.dom().contains(k) && t.snapshots[k].sandbox_id == r.sandbox_id
            && t.snapshots[k].name == r.name
}

/// References are enforced, and there is no sandbox that a new snapshot row
/// could be of.
pub open spec fn sandbox_missing(enforced: bool, t: Tables, r: SnapshotRecord) -> bool {
    enforced && r.sandbox_id is Some && !t.sandboxes.dom().contains(r.sandbox_id->0)
}

/// A new snapshot row is not let in.
pub open spec fn snapshot_refused(
    enforced: bool,
    t: Tables,
    id: Seq<char>,
    r: SnapshotRecord,
) -> bool {
    snapshot_taken(t, id, r) || sandbox_missing(enforced, t, r)
}

/// The tables with a sandbox row added.
pub open spec fn with_sandbox(t: Tables, id: Seq<char>, r: SandboxRecord) -> Tables {
    Tables { sandboxes: t.sandboxes.insert(id, r), snapshots: t.snapshots }
}

/// The tables with a snapshot row added.
pub open spec fn with_snapshot(t: Tables, id: Seq<char>, r: SnapshotRecord) -> Tables {
    Tables { sandboxes: t.sandboxes, snapshots: t.snapshots.insert(id, r) }
}

/// The tables with a sandbox's state changed; unchanged where there is no such
/// sandbox.
pub open spec fn with_state(t: Tables, id: Seq<char>, state: Seq<char>) -> Tables {
    if t.sandboxes.dom().contains(id) {
        with_sandbox(t, id, SandboxRecord { state, ..t.sandboxes[id] })
    } else {
        t
    }
}

/// The tables with a snapshot's size changed; unchanged where there is no such
/// snapshot.
pub open spec fn with_size(t: Tables, id: Seq<char>, size: int) -> Tables {
    if t.snapshots.dom().contains(id) {
        with_snapshot(t, id, SnapshotRecord { size_bytes: size, ..t.snapshots[id] })
    } else {
        t
    }
}

/// The snapshot row without its reference to sandbox `id`.
pub open spec fn orphaned(r: SnapshotRecord, id: Seq<char>) -> SnapshotRecord {
    if r.sandbox_id == Some(id) {
        SnapshotRecord { sandbox_id: None, ..r }
    } else {
        r
    }
}

/// The tables without a sandbox; where references are enforced, its snapshots
/// are orphaned.
pub open spec fn without_sandbox(enforced: bool, t: Tables, id: Seq<char>) -> Tables {
    Tables {
        sandboxes: t.sandboxes.remove(id),
        snapshots: if enforced && t.sandboxes.dom().contains(id) {
            t.snapshots.map_values(|r: SnapshotRecord| orphaned(r, id))
        } else {
            t.snapshots
        },
    }
}

/// The tables without a snapshot.
pub open spec fn without_snapshot(t: Tables, id: Seq<char>) -> Tables {
    Tables { sandboxes: t.sandboxes, snapshots: t.snapshots.remove(id) }
}

/// 1 for a row that is there, else 0.
pub open spec fn hit(there: bool) -> int {
    if there {
        1
    } else {
        0
    }
}

/// What a statement with bound values `v` does to the tables `before`, and how
/// many rows it reports.
pub open spec fn effect(
    enforced: bool,
    before: Tables,
    sql: Seq<char>,
    v: Seq<Datum>,
    after: Tables,
    n: int,
) -> bool {
    &&& forall|id: Seq<char>, r: SandboxRecord|
        sql == INSERT_SANDBOX@ && v == #[trigger] sandbox_data(id, r) ==> !sandbox_taken(
            before,
            id,
            r,
        ) && after == with_sandbox(before, id, r) && n == 1
    &&& forall|id: Seq<char>, r: SnapshotRecord|
        sql == INSERT_SNAPSHOT@ && v == #[trigger] snapshot_data(id, r) ==> !snapshot_refused(
            enforced,
            before,
            id,
            r,
        ) && after == with_snapshot(before, id, r) && n == 1
    &&& forall|id: Seq<char>, state: Seq<char>|
        sql == SET_STATE@ && v == #[trigger] update_data(id, Datum::Text(state)) ==> after
            == with_state(before, id, state) && n == hit(before.sandboxes.dom().contains(id))
    &&& forall|id: Seq<char>, size: int|
        sql == SET_SIZE@ && v == #[trigger] update_data(id, Datum::Integer(size)) ==> after
            == with_size(before, id, size) && n == hit(before.snapshots.dom().contains(id))
    &&& forall|id: Seq<char>|
        sql == DELETE_SANDBOX@ && v == #[trigger] key_data(id) ==> after == without_sandbox(
            enforced,
            before,
            id,
        ) && n == hit(before.sandboxes.dom().contains(id))
    &&& forall|id: Seq<char>|
        sql == DELETE_SNAPSHOT@ && v == #[trigger] key_data(id) ==> after == without_snapshot(
            before,
            id,
        ) && n == hit(before.snapshots.dom().contains(id))
}

/// Why a statement with bound values `v` can collide with a row of the tables
/// `t`.
pub open spec fn collision(t: Tables, sql: Seq<char>, v: Seq<Datum>) -> bool {
    &&& forall|id: Seq<char>, r: SandboxRecord|
        sql == INSERT_SANDBOX@ && v == #[trigger] sandbox_data(id, r) ==> sandbox_taken(t, id, r)
    &&& forall|id: Seq<char>, r: SnapshotRecord|
        sql == INSERT_SNAPSHOT@ && v == #[trigger] snapshot_data(id, r) ==> snapshot_taken(t, id, r)
}

/// Why a statement with bound values `v` can refer to a row that is not in the
/// tables `t`.
pub open spec fn loose_end(enforced: bool, t: Tables, sql: Seq<char>, v: Seq<Datum>) -> bool {
    &&& sql == INSERT_SNAPSHOT@
    &&& forall|id: Seq<char>, r: SnapshotRecord|
        v == #[trigger] snapshot_data(id, r) ==> sandbox_missing(enforced, t, r)
}

/// A sandbox row is wanted: by its id or its name, or because all are.
pub open spec fn sandbox_wanted(key: Option<Seq<char>>, id: Seq<char>, r: SandboxRecord) -> bool {
    key is None || id == key->0 || r.name == key
}

/// `rows` are the wanted sandbox rows of `m`, each once.
pub open spec fn sandbox_rows_are(
    rows: Seq<SandboxRow>,
    m: Map<Seq<char>, SandboxRecord>,
    key: Option<Seq<char>>,
) -> bool {
    &&& forall|i: int|
        0 <= i < rows.len() ==> m.dom().contains((#[trigger] rows[i]).id@) && m[rows[i].id@]
            == rows[i].record() && sandbox_wanted(key, rows[i].id@, rows[i].record())
    &&& forall|i: int, j: int|
        0 <= i < j < rows.len() ==> (#[trigger] rows[i]).id@ != (#[trigger] rows[j]).id@
    &&& forall|id: Seq<char>| #[trigger]
        m.dom().contains(id) && sandbox_wanted(key, id, m[id]) ==> exists|i: int|
            0 <= i < rows.len() && (#[trigger] rows[i]).id@ == id
}

/// The sandbox rows that a query with bound values `v` returns.
pub open spec fn sandbox_answer(
    t: Tables,
    sql: Seq<char>,
    v: Seq<Datum>,
    rows: Seq<SandboxRow>,
) -> bool {
    &&& forall|key: Seq<char>|
        sql == FIND_SANDBOX@ && v == #[trigger] key_data(key) ==> sandbox_rows_are(
            rows,
            t.sandboxes,
            Some(key),
        )
    &&& sql == LIST_SANDBOXES@ ==> sandbox_rows_are(rows, t.sandboxes, None) && forall|
        i: int,
        j: int,
    |
        0 <= i < j < rows.len() ==> (#[trigger] rows[i]).created_at <= (#[trigger] rows[j]).created_at
}

/// `rows` are the rows of `m` that `wanted` picks, each once.
pub open spec fn snapshot_rows_are(
    rows: Seq<SnapshotRow>,
    m: Map<Seq<char>, SnapshotRecord>,
    wanted: spec_fn(Seq<char>, SnapshotRecord) -> bool,
) -> bool {
    &&& forall|i: int|
        0 <= i < rows.len() ==> m.dom().contains((#[trigger] rows[i]).id@) && m[rows[i].id@]
            == rows[i].record() && wanted(rows[i].id@, rows[i].record())
    &&& forall|i: int, j: int|
        0 <= i < j < rows.len() ==> (#[trigger] rows[i]).id@ != (#[trigger] rows[j]).id@
    &&& forall|id: Seq<char>| #[trigger]
        m.dom().contains(id) && wanted(id, m[id]) ==> exists|i: int|
            0 <= i < rows.len() && (#[trigger] rows[i]).id@ == id
}

/// Snapshot rows with that id or that name.
pub open spec fn called(key: Seq<char>) -> spec_fn(Seq<char>, SnapshotRecord) -> bool {
    |id: Seq<char>, r: SnapshotRecord| id == key || r.name == key
}

/// Snapshot rows of that sandbox, or all.
pub open spec fn taken_of(sandbox: Option<Seq<char>>) -> spec_fn(Seq<char>, SnapshotRecord) -> bool {
    |id: Seq<char>, r: SnapshotRecord| sandbox is None || r.sandbox_id == sandbox
}

/// The snapshot rows that a query with bound values `v` returns.
pub open spec fn snapshot_answer(
    t: Tables,
    sql: Seq<char>,
    v: Seq<Datum>,
    rows: Seq<SnapshotRow>,
) -> bool {
    &&& forall|key: Seq<char>|
        sql == FIND_SNAPSHOT@ && v == #[trigger] key_data(key) ==> snapshot_rows_are(
            rows,
            t.snapshots,
            called(key),
        )
    &&& forall|sandbox: Option<Seq<char>>|
        sql == LIST_SNAPSHOTS@ && v == #[trigger] filter_data(sandbox) ==> snapshot_rows_are(
            rows,
            t.snapshots,
            taken_of(sandbox),
        ) && forall|i: int, j: int|
            0 <= i < j < rows.len() ==> (#[trigger] rows[i]).created_at <= (
            #[trigger] rows[j]).created_at
}

// --- the database ------------------------------------------------------------

/// A connection to an SQLite database.
#[verifier::external_type_specification]
#[verifier::external_body]
pub struct ExConnection(rusqlite::Connection);

/// The sandbox rows as the connection's last statement left or saw them; none
/// where there is no such table.
pub uninterp spec fn sandboxes_in(c: Connection) -> Map<Seq<char>, SandboxRecord>;

/// The snapshot rows as the connection's last statement left or saw them; none
/// where there is no such table.
pub uninterp spec fn snapshots_in(c: Connection) -> Map<Seq<char>, SnapshotRecord>;

/// The path that the database was opened by; none for one that was opened in
/// memory, which is the connection's own.
pub uninterp spec fn location(c: Connection) -> Option<Seq<char>>;

/// The pragmas that the connection was given and accepted, each with the value
/// it was last given. SQLite may accept a journal mode and keep its own, as it
/// does for a database in memory.
pub uninterp spec fn settings_in(c: Connection) -> Map<Seq<char>, Datum>;

/// How long the connection was told to wait for a lock, in seconds.
pub uninterp spec fn patience(c: Connection) -> int;

/// References between the tables are enforced.
pub uninterp spec fn enforcing(c: Connection) -> bool;

/// Something that was done on a connection: a script was run to its end, or a
/// number was read.
pub enum Deed {
    Ran(Seq<char>),
    Read(Seq<char>, int),
}

/// The scripts that were run to their end on the connection, and the numbers
/// that were read from it, in their order.
pub uninterp spec fn journal(c: Connection) -> Seq<Deed>;

/// Whatever tables of the two names the database has are as `SCHEMA` makes
/// them (it may have none): with those columns and constraints and no others, with no trigger on
/// them and no other table referring to them, and with nothing in them but
/// rows that have an id and whose values are texts and whole numbers as their
/// columns say.
pub uninterp spec fn laid_out(c: Connection) -> bool;

/// Nothing was done.
pub open spec fn no_deeds() -> Seq<Deed> {
    Seq::empty()
}

/// No pragma.
pub open spec fn no_settings() -> Map<Seq<char>, Datum> {
    Map::empty()
}

/// No other connection can change the database.
pub open spec fn private(c: Connection) -> bool {
    location(c) is None
}

/// Both tables of a database.
pub open spec fn tables_in(c: Connection) -> Tables {
    Tables { sandboxes: sandboxes_in(c), snapshots: snapshots_in(c) }
}

/// The connection is to the same database and set up in the same way.
pub open spec fn same_setup(before: Connection, after: Connection) -> bool {
    &&& location(after) == location(before)
    &&& settings_in(after) == settings_in(before)
    &&& patience(after) == patience(before)
    &&& enforcing(after) == enforcing(before)
}

/// No script was run to its end, and no number was read.
pub open spec fn same_journal(before: Connection, after: Connection) -> bool {
    journal(after) == journal(before)
}

/// Of a private database, both tables are as they were.
pub open spec fn untouched(before: Connection, after: Connection) -> bool {
    private(before) ==> tables_in(after) == tables_in(before)
}

/// A private database stays laid out as it should be.
pub open spec fn stays_laid_out(before: Connection, after: Connection) -> bool {
    private(before) && laid_out(before) ==> laid_out(after)
}

/// A statement that changes rows, and values of the kinds that it is bound to:
/// what every column wants, and no row without an id.
pub open spec fn fits(sql: Seq<char>, v: Seq<Datum>) -> bool {
    ||| sql == INSERT_SANDBOX@ && exists|id: Seq<char>, r: SandboxRecord|
        v == #[trigger] sandbox_data(id, r)
    ||| sql == INSERT_SNAPSHOT@ && exists|id: Seq<char>, r: SnapshotRecord|
        v == #[trigger] snapshot_data(id, r)
    ||| sql == SET_STATE@ && exists|id: Seq<char>, state: Seq<char>|
        v == #[trigger] update_data(id, Datum::Text(state))
    ||| sql == SET_SIZE@ && exists|id: Seq<char>, size: int|
        v == #[trigger] update_data(id, Datum::Integer(size))
    ||| (sql == DELETE_SANDBOX@ || sql == DELETE_SNAPSHOT@) && exists|id: Seq<char>|
        v == #[trigger] key_data(id)
}

/// Opens a database file with `rusqlite::Connection::open`, creating it if
/// need be. Claimed: the connection was opened by that path, it was given no
/// pragma yet, and nothing was run on it. Nothing is claimed of what the file holds, nor of how its tables
/// are laid out: any program may have made it, and may change it.
#[verifier::external_body]
pub(crate) fn connect(path: &str) -> (r: Result<Connection, SqlFailure>)
    ensures
        r matches Ok(c) ==> location(c) == Some(path@) && settings_in(c) == no_settings()
            && journal(c) == no_deeds(),
{
    Connection::open(path).map_err(|e| SqlFailure::plain(e.to_string()))
}

/// Opens a fresh database with `rusqlite::Connection::open_in_memory`. Claimed:
/// it is in no file, so that only this connection can change it; it is empty,
/// and so has no table of another layout; it was given no pragma yet, and nothing
/// was run on it.
#[verifier::external_body]
pub(crate) fn connect_in_memory() -> (r: Result<Connection, SqlFailure>)
    ensures
        r matches Ok(c) ==> location(c) is None && settings_in(c) == no_settings()
            && sandboxes_in(c) == no_tables().sandboxes && snapshots_in(c) == no_tables().snapshots
            && laid_out(c) && journal(c) == no_deeds(),
{
    Connection::open_in_memory().map_err(|e| SqlFailure::plain(e.to_string()))
}

/// Gives the database a pragma with `rusqlite::Connection::pragma_update`.
/// Claimed of the three that the registry sets: no row changes, success means
/// that the value was accepted, and setting `foreign_keys` to `ON` has
/// references enforced from then on. (SQLite ignores that one inside a
/// transaction; no statement here opens one.)
#[verifier::external_body]
pub(crate) fn set_pragma(conn: &mut Connection, name: &str, value: SqlValue) -> (r: Result<
    (),
    SqlFailure,
>)
    requires
        name@ == "journal_mode"@ || name@ == "foreign_keys"@ || name@ == "user_version"@,
    ensures
        untouched(*old(conn), *final(conn)),
        stays_laid_out(*old(conn), *final(conn)),
        location(*final(conn)) == location(*old(conn)),
        same_journal(*old(conn), *final(conn)),
        patience(*final(conn)) == patience(*old(conn)),
        r is Ok ==> settings_in(*final(conn)) == settings_in(*old(conn)).insert(name@, value@),
        name@ != "foreign_keys"@ ==> enforcing(*final(conn)) == enforcing(*old(conn)),
        r is Ok && name@ == "foreign_keys"@ && value@ == Datum::Text("ON"@) ==> enforcing(
            *final(conn),
        ),
{
    let value = match value {
        SqlValue::Null => rusqlite::types::Value::Null,
        SqlValue::Integer(n) => rusqlite::types::Value::Integer(n),
        SqlValue::Text(s) => rusqlite::types::Value::Text(s),
    };
    conn.pragma_update(None, name, value).map_err(|e| SqlFailure::plain(e.to_string()))
}

/// Lets statements wait for a lock, with `rusqlite::Connection::busy_timeout`.
/// Claimed: no row changes, and success means that the timeout was set. One of
/// more than `i32::MAX` milliseconds would panic, and is left out.
#[verifier::external_body]
pub(crate) fn wait_when_busy(conn: &mut Connection, secs: u64) -> (r: Result<(), SqlFailure>)
    requires
        secs <= 2_147_483,
    ensures
        untouched(*old(conn), *final(conn)),
        stays_laid_out(*old(conn), *final(conn)),
        location(*final(conn)) == location(*old(conn)),
        same_journal(*old(conn), *final(conn)),
        settings_in(*final(conn)) == settings_in(*old(conn)),
        enforcing(*final(conn)) == enforcing(*old(conn)),
        r is Ok ==> patience(*final(conn)) == secs,
{
    conn.busy_timeout(std::time::Duration::from_secs(secs)).map_err(|e| SqlFailure::plain(e.to_string()))
}

/// Creates the tables, or brings tables of the first layout up to date, with
/// `rusqlite::Connection::execute_batch`.
///
/// Claimed: success means that the script was run to its end, and none sets the
/// connection up in another way. `SCHEMA` changes no row
/// of a private database and, where its tables are laid out as they should be,
/// leaves them so; tables of these names that are there already are kept,
/// whatever their layout. What the other three do to the tables is not claimed:
/// they are for a file, which any program may have made.
#[verifier::external_body]
pub(crate) fn run_script(conn: &mut Connection, sql: &str) -> (r: Result<(), SqlFailure>)
    requires
        sql@ == SCHEMA@ || sql@ == ADD_ROOTFS@ || sql@ == ADD_SIZE@ || sql@ == FILL_ROOTFS@,
    ensures
        same_setup(*old(conn), *final(conn)),
        journal(*final(conn)) == (if r is Ok {
            journal(*old(conn)).push(Deed::Ran(sql@))
        } else {
            journal(*old(conn))
        }),
        sql@ == SCHEMA@ ==> untouched(*old(conn), *final(conn)) && stays_laid_out(
            *old(conn),
            *final(conn),
        ),
{
    conn.execute_batch(sql).map_err(|e| SqlFailure::plain(e.to_string()))
}

/// Reads one number, with `rusqlite::Connection::query_row`.
///
/// Claimed: success means that the number was read, and neither the setup nor a
/// private database changes. Nothing is claimed of the number itself, which is up
/// to the file.
#[verifier::external_body]
pub(crate) fn read_number(conn: &mut Connection, sql: &str) -> (r: Result<i64, SqlFailure>)
    requires
        sql@ == COUNT_ROOTFS@ || sql@ == COUNT_SIZE@,
    ensures
        same_setup(*old(conn), *final(conn)),
        journal(*final(conn)) == (match r {
            Ok(n) => journal(*old(conn)).push(Deed::Read(sql@, n as int)),
            Err(_) => journal(*old(conn)),
        }),
        untouched(*old(conn), *final(conn)),
        stays_laid_out(*old(conn), *final(conn)),
{
    conn.query_row(sql, [], |row| row.get(0)).map_err(|e| SqlFailure::plain(e.to_string()))
}

/// Runs one of the statements that change rows, with
/// `rusqlite::Connection::execute`.
///
/// Claimed: where it fails, a private database is unchanged, and a private one
/// stays laid out as it should be. All else is claimed only of tables that are
/// laid out as they should be. Where it succeeds, they (of a private database:
/// as they were) are taken to what `effect` says, and the number of rows is
/// reported. Where it fails, a dangling reference is reported (by the extended
/// code `SQLITE_CONSTRAINT_FOREIGNKEY`) only where a new snapshot's sandbox is
/// not there, and any other constraint violation only where a new row collides
/// with one that is there. When it fails otherwise is not said: that depends on
/// locks, memory and the disk.
#[verifier::external_body]
pub(crate) fn execute(conn: &mut Connection, sql: &str, values: &Vec<SqlValue>) -> (r: Result<
    usize,
    SqlFailure,
>)
    requires
        fits(sql@, data(values@)),
    ensures
        same_setup(*old(conn), *final(conn)),
        same_journal(*old(conn), *final(conn)),
        stays_laid_out(*old(conn), *final(conn)),
        laid_out(*final(conn)) && r is Ok ==> exists|before: Tables|
            (private(*old(conn)) ==> before == tables_in(*old(conn))) && #[trigger] effect(
                enforcing(*old(conn)),
                before,
                sql@,
                data(values@),
                tables_in(*final(conn)),
                r->Ok_0 as int,
            ),
        r is Err && private(*old(conn)) ==> tables_in(*final(conn)) == tables_in(*old(conn)),
        laid_out(*final(conn)) ==> (r matches Err(f) && f.constraint && !f.dangling ==> collision(
            tables_in(*final(conn)),
            sql@,
            data(values@),
        )),
        laid_out(*final(conn)) ==> (r matches Err(f) && f.dangling ==> loose_end(
            enforcing(*old(conn)),
            tables_in(*final(conn)),
            sql@,
            data(values@),
        )),
{
    let values = values.iter().map(|v| match v {
        SqlValue::Null => rusqlite::types::Value::Null,
        SqlValue::Integer(n) => rusqlite::types::Value::Integer(*n),
        SqlValue::Text(s) => rusqlite::types::Value::Text(s.clone()),
    });
    conn.execute(sql, rusqlite::params_from_iter(values)).map_err(|e| SqlFailure {
        constraint: e.sqlite_error_code() == Some(rusqlite::ErrorCode::ConstraintViolation),
        dangling: e.sqlite_extended_error_code() == Some(
            rusqlite::ffi::SQLITE_CONSTRAINT_FOREIGNKEY,
        ),
        message: e.to_string(),
    })
}

/// Runs one of the queries for sandbox rows, with
/// `rusqlite::Statement::query_map`.
///
/// Claimed: a private database is unchanged. Of tables that are laid out as
/// they should be: where the query succeeds, the rows are those that
/// `sandbox_answer` says, of the tables as it saw them.
#[verifier::external_body]
pub(crate) fn query_sandboxes(conn: &mut Connection, sql: &str, key: Option<&str>) -> (r: Result<
    Vec<SandboxRow>,
    SqlFailure,
>)
    requires
        sql@ == FIND_SANDBOX@ || sql@ == LIST_SANDBOXES@,
    ensures
        untouched(*old(conn), *final(conn)),
        stays_laid_out(*old(conn), *final(conn)),
        same_setup(*old(conn), *final(conn)),
        same_journal(*old(conn), *final(conn)),
        laid_out(*final(conn)) && r is Ok ==> sandbox_answer(
            tables_in(*final(conn)),
            sql@,
            match key {
                Some(k) => key_data(k@),
                None => Seq::empty(),
            },
            r->Ok_0@,
        ),
{
    conn.prepare(sql).and_then(|mut q| q.query_map(rusqlite::params_from_iter(key), |row| {
        Ok(SandboxRow {
            id: row.get(0)?,
            name: row.get(1)?,
            state: row.get(2)?,
            backend: row.get(3)?,
            rootfs: row.get(4)?,
            state_dir: row.get(5)?,
            limits: row.get(6)?,
            created_at: row.get(7)?,
        })
    })?.collect()).map_err(|e| SqlFailure::plain(e.to_string()))
}

/// Runs one of the queries for snapshot rows, with
/// `rusqlite::Statement::query_map`.
///
/// Claimed: a private database is unchanged. Of tables that are laid out as
/// they should be: where the query succeeds, the rows are those that
/// `snapshot_answer` says, of the tables as it saw them.
#[verifier::external_body]
pub(crate) fn query_snapshots(conn: &mut Connection, sql: &str, key: Option<&str>) -> (r: Result<
    Vec<SnapshotRow>,
    SqlFailure,
>)
    requires
        sql@ == FIND_SNAPSHOT@ || sql@ == LIST_SNAPSHOTS@,
    ensures
        untouched(*old(conn), *final(conn)),
        stays_laid_out(*old(conn), *final(conn)),
        same_setup(*old(conn), *final(conn)),
        same_journal(*old(conn), *final(conn)),
        laid_out(*final(conn)) && r is Ok ==> snapshot_answer(
            tables_in(*final(conn)),
            sql@,
            filter_data(
                match key {
                    Some(k) => Some(k@),
                    None => None,
                },
            ),
            r->Ok_0@,
        ),
{
    conn.prepare(sql).and_then(|mut q| q.query_map([key], |row| {
        Ok(SnapshotRow {
            id: row.get(0)?,
            sandbox_id: row.get(1)?,
            name: row.get(2)?,
            path: row.get(3)?,
            rootfs: row.get(4)?,
            size_bytes: row.get(5)?,
            created_at: row.get(6)?,
        })
    })?.collect()).map_err(|e| SqlFailure::plain(e.to_string()))
}

} // verus!
