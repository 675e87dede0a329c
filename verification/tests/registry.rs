//! The registry, on a real database.

use draug::error::{Error, ResourceKind, SqlFailure};
use draug::json::{elements, members, sole_member};
use draug::limits::{limits_of, ResourceLimits, TimeSpan};
use draug::registry::{
    all_snapshots, inserted_sandbox, inserted_snapshot, pick_sandbox, plan_upgrade,
    prepared_so_far, removed, row_to_snapshot, updated, Registry, UpgradeStep, SCHEMA_VERSION,
};
use draug::sql::{SandboxRow, SnapshotRow};
use draug::types::{Sandbox, SandboxId, SandboxState, SnapshotId, SnapshotMeta};

fn sample_sandbox(id: &str, name: Option<&str>) -> Sandbox {
    Sandbox {
        id: SandboxId(id.to_owned()),
        name: name.map(str::to_owned),
        state: SandboxState::Creating,
        backend: "ns".to_owned(),
        rootfs: "/images/base".to_owned(),
        state_dir: format!("/run/draug/{id}"),
        limits: ResourceLimits::unlimited(),
        created_at: 1,
    }
}

fn sample_snapshot(id: &str, sandbox: Option<&str>, name: &str, at: i64) -> SnapshotMeta {
    SnapshotMeta {
        id: SnapshotId(id.to_owned()),
        sandbox_id: sandbox.map(|s| SandboxId(s.to_owned())),
        name: name.to_owned(),
        path: format!("/snapshots/{id}"),
        rootfs: "/images/base".to_owned(),
        size_bytes: 0,
        created_at: at,
    }
}

#[test]
fn sandbox_roundtrip() {
    let mut reg = Registry::open_in_memory().unwrap();
    reg.insert_sandbox(&sample_sandbox("sb1", Some("dev"))).unwrap();

    let by_id = reg.get_sandbox("sb1").unwrap();
    assert_eq!(by_id.name.as_deref(), Some("dev"));
    let by_name = reg.get_sandbox("dev").unwrap();
    assert_eq!(by_name.id.0, "sb1");

    reg.update_sandbox_state(&SandboxId("sb1".into()), SandboxState::Ready)
        .unwrap();
    assert_eq!(reg.get_sandbox("sb1").unwrap().state, SandboxState::Ready);

    assert!(matches!(
        reg.insert_sandbox(&sample_sandbox("sb1", None)),
        Err(Error::AlreadyExists { .. })
    ));

    reg.remove_sandbox(&SandboxId("sb1".into())).unwrap();
    assert!(matches!(
        reg.get_sandbox("sb1"),
        Err(Error::NotFound { .. })
    ));
    // idempotent remove
    reg.remove_sandbox(&SandboxId("sb1".into())).unwrap();
}

#[test]
fn snapshot_roundtrip() {
    let mut reg = Registry::open_in_memory().unwrap();
    reg.insert_sandbox(&sample_sandbox("sb1", None)).unwrap();
    let snap = SnapshotMeta {
        id: SnapshotId("sn1".into()),
        sandbox_id: Some(SandboxId("sb1".into())),
        name: "before-tests".into(),
        path: "/var/lib/draug/snapshots/sn1".into(),
        rootfs: "/images/base".into(),
        size_bytes: 0,
        created_at: 2,
    };
    reg.insert_snapshot(&snap).unwrap();
    assert_eq!(reg.get_snapshot("before-tests").unwrap().id.0, "sn1");
    assert_eq!(
        reg.list_snapshots(Some(&SandboxId("sb1".into()))).unwrap().len(),
        1
    );

    // destroying the sandbox orphans, not deletes, the snapshot
    reg.remove_sandbox(&SandboxId("sb1".into())).unwrap();
    assert!(reg.get_snapshot("sn1").unwrap().sandbox_id.is_none());
}

#[test]
fn what_was_inserted_is_read_back_whole() {
    let mut reg = Registry::open_in_memory().unwrap();
    let sb = Sandbox {
        id: SandboxId("a1".into()),
        name: Some("näme \"q\"".into()),
        state: SandboxState::Running,
        backend: "other".into(),
        rootfs: "/p/ü".into(),
        state_dir: "/s".into(),
        limits: ResourceLimits {
            cpu_millis: Some(u32::MAX),
            memory_bytes: Some(u64::MAX),
            pids: Some(0),
            disk_bytes: None,
            wall_time: Some(TimeSpan { secs: u64::MAX, nanos: 999_999_999 }),
        },
        created_at: -5,
    };
    reg.insert_sandbox(&sb).unwrap();
    assert_eq!(reg.get_sandbox("a1").unwrap(), sb);
    assert_eq!(reg.get_sandbox("näme \"q\"").unwrap(), sb);
    assert_eq!(reg.list_sandboxes().unwrap(), vec![sb]);
}

#[test]
fn an_id_wins_over_a_name() {
    let mut reg = Registry::open_in_memory().unwrap();
    reg.insert_sandbox(&sample_sandbox("first", Some("second"))).unwrap();
    reg.insert_sandbox(&sample_sandbox("second", Some("third"))).unwrap();
    assert_eq!(reg.get_sandbox("second").unwrap().id.0, "second");
    assert_eq!(reg.get_sandbox("third").unwrap().id.0, "second");
    assert_eq!(reg.get_sandbox("first").unwrap().id.0, "first");

    reg.insert_snapshot(&sample_snapshot("n1", Some("first"), "n2", 1)).unwrap();
    reg.insert_snapshot(&sample_snapshot("n2", Some("second"), "x", 2)).unwrap();
    assert_eq!(reg.get_snapshot("n2").unwrap().id.0, "n2");
    assert_eq!(reg.get_snapshot("x").unwrap().id.0, "n2");
}

#[test]
fn clashes_name_the_row() {
    let mut reg = Registry::open_in_memory().unwrap();
    reg.insert_sandbox(&sample_sandbox("sb1", Some("dev"))).unwrap();
    assert_eq!(
        reg.insert_sandbox(&sample_sandbox("sb2", Some("dev"))),
        Err(Error::AlreadyExists { kind: ResourceKind::Sandbox, id: "dev".into() })
    );
    assert_eq!(
        reg.insert_sandbox(&sample_sandbox("sb1", None)),
        Err(Error::AlreadyExists { kind: ResourceKind::Sandbox, id: "sb1".into() })
    );
    // Two sandboxes without a name do not clash.
    reg.insert_sandbox(&sample_sandbox("sb2", None)).unwrap();
    reg.insert_sandbox(&sample_sandbox("sb3", None)).unwrap();
    assert_eq!(reg.list_sandboxes().unwrap().len(), 3);

    reg.insert_snapshot(&sample_snapshot("sn1", Some("sb1"), "s", 1)).unwrap();
    let twice = Err(Error::AlreadyExists { kind: ResourceKind::Snapshot, id: "s".into() });
    assert_eq!(reg.insert_snapshot(&sample_snapshot("sn1", Some("sb2"), "s", 1)), twice);
    assert_eq!(reg.insert_snapshot(&sample_snapshot("sn2", Some("sb1"), "s", 1)), twice);
    // A sandbox that is not there is no clash.
    assert_eq!(
        reg.insert_snapshot(&sample_snapshot("sn2", Some("gone"), "s", 1)),
        Err(Error::NotFound { kind: ResourceKind::Sandbox, id: "gone".into() })
    );
    assert!(reg.get_snapshot("sn2").is_err());
    reg.insert_snapshot(&sample_snapshot("sn2", Some("sb2"), "s", 1)).unwrap();
}

#[test]
fn missing_rows_are_reported() {
    let mut reg = Registry::open_in_memory().unwrap();
    assert_eq!(
        reg.get_sandbox("x"),
        Err(Error::NotFound { kind: ResourceKind::Sandbox, id: "x".into() })
    );
    assert_eq!(
        reg.get_snapshot("x"),
        Err(Error::NotFound { kind: ResourceKind::Snapshot, id: "x".into() })
    );
    assert_eq!(
        reg.update_sandbox_state(&SandboxId("x".into()), SandboxState::Ready),
        Err(Error::NotFound { kind: ResourceKind::Sandbox, id: "x".into() })
    );
    assert_eq!(
        reg.set_snapshot_size(&SnapshotId("x".into()), 1),
        Err(Error::NotFound { kind: ResourceKind::Snapshot, id: "x".into() })
    );
    reg.remove_snapshot(&SnapshotId("x".into())).unwrap();
}

#[test]
fn lists_are_oldest_first() {
    let mut reg = Registry::open_in_memory().unwrap();
    for (id, at) in [("a", 3), ("b", 1), ("c", 2)] {
        let mut sb = sample_sandbox(id, None);
        sb.created_at = at;
        reg.insert_sandbox(&sb).unwrap();
        reg.insert_snapshot(&sample_snapshot(id, Some(id), "n", at)).unwrap();
    }
    let ids: Vec<String> = reg.list_sandboxes().unwrap().into_iter().map(|s| s.id.0).collect();
    assert_eq!(ids, vec!["b", "c", "a"]);
    let ids: Vec<String> = reg.list_snapshots(None).unwrap().into_iter().map(|s| s.id.0).collect();
    assert_eq!(ids, vec!["b", "c", "a"]);
    assert_eq!(reg.list_snapshots(Some(&SandboxId("zz".into()))).unwrap().len(), 0);
}

#[test]
fn sizes_are_recorded_up_to_the_databases_limit() {
    let mut reg = Registry::open_in_memory().unwrap();
    reg.insert_snapshot(&sample_snapshot("sn1", None, "s", 1)).unwrap();
    reg.set_snapshot_size(&SnapshotId("sn1".into()), 12345).unwrap();
    assert_eq!(reg.get_snapshot("sn1").unwrap().size_bytes, 12345);
    let too_much = Err(Error::Registry(SqlFailure::plain(
        "out of range integral type conversion attempted".into(),
    )));
    assert_eq!(reg.set_snapshot_size(&SnapshotId("sn1".into()), u64::MAX), too_much);
    let mut big = sample_snapshot("sn2", None, "s", 1);
    big.size_bytes = u64::MAX;
    assert_eq!(reg.insert_snapshot(&big), too_much);
    reg.remove_snapshot(&SnapshotId("sn1".into())).unwrap();
    assert!(reg.get_snapshot("sn1").is_err());
}

#[test]
fn default_path_follows_the_environment() {
    assert_eq!(
        Registry::default_path(Some("/data"), Some("/home/me")),
        "/data/draug/registry.db"
    );
    assert_eq!(
        Registry::default_path(None, Some("/home/me")),
        "/home/me/.local/share/draug/registry.db"
    );
    assert_eq!(Registry::default_path(None, None), ".local/share/draug/registry.db");
    assert_eq!(Registry::default_path(Some("/data/"), None), "/data/draug/registry.db");
}

#[test]
fn unreadable_database_is_a_registry_error() {
    assert!(matches!(Registry::open("/proc/no/such/file.db"), Err(Error::Registry(_))));
}

fn row(id: &str, state: &str, limits: &str) -> SandboxRow {
    SandboxRow {
        id: id.into(),
        name: None,
        state: state.into(),
        backend: "ns".into(),
        rootfs: "/r".into(),
        state_dir: "/s".into(),
        limits: limits.into(),
        created_at: 9,
    }
}

#[test]
fn odd_rows_are_read_with_care() {
    let sb = pick_sandbox(Ok(vec![row("a", "exploded", "not json")]), "a").unwrap();
    assert_eq!(sb.state, SandboxState::Stopped);
    assert_eq!(sb.limits, ResourceLimits::unlimited());
    let sb = pick_sandbox(Ok(vec![row("a", "ready", "{}"), row("k", "ready", "{}")]), "k").unwrap();
    assert_eq!(sb.id.0, "k");
    let sb = pick_sandbox(Ok(vec![row("a", "ready", "{}"), row("b", "ready", "{}")]), "k").unwrap();
    assert_eq!(sb.id.0, "a");

    let bad = SnapshotRow {
        id: "s".into(),
        sandbox_id: None,
        name: "n".into(),
        path: "/p".into(),
        rootfs: "/r".into(),
        size_bytes: -7,
        created_at: 0,
    };
    let f = row_to_snapshot(bad).unwrap_err();
    assert_eq!(f.message, "Integer -7 out of range at index 5");
    assert!(matches!(all_snapshots(Ok(vec![])), Ok(v) if v.is_empty()));
}

#[test]
fn outcomes_of_statements() {
    let clash = SqlFailure { constraint: true, dangling: false, message: "UNIQUE".into() };
    let busy = SqlFailure::plain("database is locked".into());
    let sb = sample_sandbox("i", Some("n"));
    assert!(matches!(inserted_sandbox(Err(clash.clone()), &sb),
        Err(Error::AlreadyExists { id, .. }) if id == "n"));
    assert_eq!(inserted_sandbox(Err(busy.clone()), &sb), Err(Error::Registry(busy.clone())));
    let snap = sample_snapshot("i", None, "n", 1);
    assert!(matches!(inserted_snapshot(Err(clash), &snap), Err(Error::AlreadyExists { .. })));
    let loose = SqlFailure { constraint: true, dangling: true, message: "FOREIGN KEY".into() };
    let of = sample_snapshot("i", Some("gone"), "n", 1);
    assert!(matches!(inserted_snapshot(Err(loose.clone()), &of),
        Err(Error::NotFound { kind: ResourceKind::Sandbox, id }) if id == "gone"));
    assert_eq!(inserted_snapshot(Err(loose.clone()), &snap), Err(Error::Registry(loose)));
    assert_eq!(updated(Ok(1), ResourceKind::Sandbox, "i"), Ok(()));
    assert!(updated(Ok(0), ResourceKind::Sandbox, "i").is_err());
    assert_eq!(removed(Ok(0)), Ok(()));
    assert_eq!(removed(Err(busy.clone())), Err(Error::Registry(busy)));
}

#[test]
fn limits_as_json() {
    let none = ResourceLimits::unlimited();
    assert_eq!(
        none.to_json(),
        "{\"cpu_millis\":null,\"memory_bytes\":null,\"pids\":null,\"disk_bytes\":null,\"wall_time\":null}"
    );
    let some = ResourceLimits {
        cpu_millis: Some(1500),
        memory_bytes: Some(1 << 30),
        pids: Some(64),
        disk_bytes: Some(7),
        wall_time: Some(TimeSpan { secs: 60, nanos: 5 }),
    };
    assert_eq!(
        some.to_json(),
        "{\"cpu_millis\":1500,\"memory_bytes\":1073741824,\"pids\":64,\"disk_bytes\":7,\"wall_time\":{\"secs\":60,\"nanos\":5}}"
    );
    assert_eq!(ResourceLimits::from_json(&some.to_json()), some);
    assert_eq!(ResourceLimits::from_json(&none.to_json()), none);
    // Missing members are no limits; one that makes no sense voids them all.
    assert_eq!(
        ResourceLimits::from_json("{ \"pids\": 3, \"other\": [] }"),
        ResourceLimits { pids: Some(3), ..none }
    );
    assert_eq!(ResourceLimits::from_json("{\"pids\":3,\"cpu_millis\":\"x\"}"), none);
    assert_eq!(ResourceLimits::from_json("{\"pids\":4294967296}"), none);
    assert_eq!(ResourceLimits::from_json("{\"wall_time\":{\"secs\":1}}"), none);
    assert_eq!(
        ResourceLimits::from_json("{\"wall_time\":{\"secs\":1,\"nanos\":1500000000}}").wall_time,
        Some(TimeSpan { secs: 2, nanos: 500_000_000 })
    );
    assert_eq!(ResourceLimits::from_json("{\"wall_time\":{\"secs\":1,\"nanos\":2,\"x\":3}}"), none);
    assert_eq!(
        ResourceLimits::from_json("{\"wall_time\":[1,2]}").wall_time,
        Some(TimeSpan { secs: 1, nanos: 2 })
    );
    assert_eq!(
        ResourceLimits::from_json("[1500,1073741824,64,7,{\"secs\":60,\"nanos\":5}]"),
        some
    );
    assert_eq!(ResourceLimits::from_json("[1500,1073741824,64,7,[60,5]]"), some);
    assert_eq!(ResourceLimits::from_json("[1500,1073741824,64,7]"), none);
    assert_eq!(ResourceLimits::from_json("[1,2,3,4,null,5]"), none);
    assert_eq!(ResourceLimits::from_json("7"), none);
    assert_eq!(
        limits_of(Some(Some(2)), Some(None), Some(None), Some(Some(9)), Some(Some((1, 2)))),
        ResourceLimits {
            cpu_millis: Some(2),
            disk_bytes: Some(9),
            wall_time: Some(TimeSpan { secs: 1, nanos: 2 }),
            ..none
        }
    );
    assert_eq!(limits_of(Some(Some(2)), None, Some(None), Some(None), Some(None)), none);
    assert_eq!(limits_of(Some(Some(1 << 32)), Some(None), Some(None), Some(None), Some(None)), none);
    assert_eq!(limits_of(Some(Some(2)), Some(None), Some(None), Some(None), None), none);
    assert_eq!(ResourceLimits::default(), none);
}

const FIRST_LAYOUT: &str = "
CREATE TABLE sandbox (
    id         TEXT PRIMARY KEY,
    name       TEXT UNIQUE,
    state      TEXT NOT NULL,
    backend    TEXT NOT NULL,
    rootfs     TEXT NOT NULL,
    state_dir  TEXT NOT NULL,
    limits     TEXT NOT NULL,
    created_at INTEGER NOT NULL
);
CREATE TABLE snapshot (
    id         TEXT PRIMARY KEY,
    sandbox_id TEXT REFERENCES sandbox(id) ON DELETE SET NULL,
    name       TEXT NOT NULL,
    path       TEXT NOT NULL,
    created_at INTEGER NOT NULL,
    UNIQUE (sandbox_id, name)
);
INSERT INTO sandbox VALUES ('sb1', 'dev', 'Ready', 'ns', '/images/old', '/run/sb1', '{}', 1);
INSERT INTO snapshot VALUES ('s1', 'sb1', 'first', '/snapshots/s1', 2);
INSERT INTO snapshot VALUES ('s2', NULL, 'orphan', '/snapshots/s2', 3);
PRAGMA user_version = 1;
";

/// A database that lives as long as the connection, and that others can open by
/// the same path.
fn shared(path: &str, script: &str) -> rusqlite::Connection {
    let conn = rusqlite::Connection::open(path).unwrap();
    conn.execute_batch(script).unwrap();
    conn
}

fn version_of(conn: &rusqlite::Connection) -> i64 {
    conn.query_row("PRAGMA user_version", [], |row| row.get(0)).unwrap()
}

#[test]
fn the_first_layout_is_brought_up_to_date() {
    let path = "file:first_layout?mode=memory&cache=shared";
    let other = shared(path, FIRST_LAYOUT);
    let mut reg = Registry::open(path).unwrap();
    assert_eq!(version_of(&other), SCHEMA_VERSION);

    let s1 = reg.get_snapshot("s1").unwrap();
    assert_eq!(s1.rootfs, "/images/old");
    assert_eq!(s1.size_bytes, 0);
    assert_eq!(s1.path, "/snapshots/s1");
    assert_eq!(s1.created_at, 2);
    let s2 = reg.get_snapshot("orphan").unwrap();
    assert_eq!(s2.rootfs, "");
    assert!(s2.sandbox_id.is_none());
    assert_eq!(reg.get_sandbox("dev").unwrap().rootfs, "/images/old");

    let mut more = sample_snapshot("s3", Some("sb1"), "third", 4);
    more.size_bytes = 9;
    reg.insert_snapshot(&more).unwrap();
    assert_eq!(reg.get_snapshot("s3").unwrap().size_bytes, 9);
    drop(reg);

    // Nothing is left to do the next time.
    let mut again = Registry::open(path).unwrap();
    assert_eq!(again.list_snapshots(None).unwrap().len(), 3);
    assert_eq!(again.get_snapshot("s1").unwrap().rootfs, "/images/old");
}

#[test]
fn an_upgrade_left_halfway_is_taken_up_again() {
    let path = "file:halfway?mode=memory&cache=shared";
    let half = format!(
        "{FIRST_LAYOUT} ALTER TABLE snapshot ADD COLUMN rootfs TEXT NOT NULL DEFAULT '';"
    );
    let _other = shared(path, &half);
    let mut reg = Registry::open(path).unwrap();
    assert_eq!(reg.get_snapshot("first").unwrap().rootfs, "/images/old");
    reg.set_snapshot_size(&SnapshotId("s1".to_owned()), 7).unwrap();
    assert_eq!(reg.get_snapshot("s1").unwrap().size_bytes, 7);
}

#[test]
fn a_new_database_is_marked_with_its_layout() {
    let path = "file:new_layout?mode=memory&cache=shared";
    let other = shared(path, "");
    let mut reg = Registry::open(path).unwrap();
    assert_eq!(version_of(&other), 1);
    reg.insert_sandbox(&sample_sandbox("sb1", None)).unwrap();
    reg.insert_snapshot(&sample_snapshot("s1", Some("sb1"), "one", 1)).unwrap();
    assert_eq!(reg.get_snapshot("one").unwrap().rootfs, "/images/base");
}

#[test]
fn upgrades_have_only_the_steps_that_are_needed() {
    assert_eq!(
        plan_upgrade(false, false),
        vec![UpgradeStep::AddRootfs, UpgradeStep::FillRootfs, UpgradeStep::AddSize]
    );
    assert_eq!(plan_upgrade(true, false), vec![UpgradeStep::FillRootfs, UpgradeStep::AddSize]);
    assert_eq!(plan_upgrade(false, true), vec![UpgradeStep::AddRootfs, UpgradeStep::FillRootfs]);
    assert_eq!(plan_upgrade(true, true), vec![]);
}

#[test]
fn tables_of_another_layout_are_read_as_they_are() {
    let path = "file:other_layout?mode=memory&cache=shared";
    let _other = shared(
        path,
        "CREATE TABLE sandbox (id TEXT, name TEXT, state TEXT, backend TEXT, rootfs TEXT,
             state_dir TEXT, limits TEXT, created_at INTEGER);
         INSERT INTO sandbox VALUES ('sb1', NULL, 'Ready', 'ns', '/a', '/b', '{}', 1);
         INSERT INTO sandbox VALUES ('sb1', NULL, 'Ready', 'ns', '/c', '/d', '{}', 2);",
    );
    let mut reg = Registry::open(path).unwrap();
    assert_eq!(reg.list_sandboxes().unwrap().len(), 2);
    assert_eq!(reg.get_sandbox("sb1").unwrap().id.0, "sb1");
}

#[test]
fn a_limit_that_is_given_twice_voids_them_all() {
    let none = ResourceLimits::unlimited();
    assert_eq!(ResourceLimits::from_json("{\"pids\":3,\"pids\":4}"), none);
    assert_eq!(ResourceLimits::from_json("{\"pids\":3,\"pids\":3}"), none);
    assert_eq!(ResourceLimits::from_json("{\"pids\":3,\"p\\u0069ds\":3}"), none);
    assert_eq!(
        ResourceLimits::from_json("{\"wall_time\":{\"secs\":1,\"secs\":1,\"nanos\":2}}"),
        none
    );
    // Of the others, any number of members can have the same name.
    assert_eq!(
        ResourceLimits::from_json("{\"x\":1,\"pids\":3,\"x\":2}"),
        ResourceLimits { pids: Some(3), ..none }
    );
}

#[test]
fn other_members_do_not_matter() {
    let three = ResourceLimits { pids: Some(3), ..ResourceLimits::unlimited() };
    let deep = format!("{{\"x\":{}{},\"pids\":3}}", "[".repeat(500), "]".repeat(500));
    assert_eq!(ResourceLimits::from_json(&deep), three);
    assert_eq!(ResourceLimits::from_json("{\"x\":1e999999,\"pids\":3}"), three);
    assert_eq!(ResourceLimits::from_json("{\"pids\":3,\"x\":\"}, \\\" \u{e9}\"}"), three);
    assert_eq!(ResourceLimits::from_json(" \n{\t\"p\\u0069ds\" :\r 3 } "), three);
    // But they have to be JSON.
    let none = ResourceLimits::unlimited();
    assert_eq!(ResourceLimits::from_json("{\"x\":[1,],\"pids\":3}"), none);
    assert_eq!(ResourceLimits::from_json("{\"x\":01,\"pids\":3}"), none);
    assert_eq!(ResourceLimits::from_json("{\"pids\":3,}"), none);
    assert_eq!(ResourceLimits::from_json("{\"pids\":3} x"), none);
    assert_eq!(ResourceLimits::from_json("{\"pids\" 3}"), none);
    assert_eq!(ResourceLimits::from_json("{pids:3}"), none);
    assert_eq!(ResourceLimits::from_json("{1:3,\"pids\":3}"), none);
    assert_eq!(ResourceLimits::from_json("{\"pids\":3"), none);
    assert_eq!(ResourceLimits::from_json("{\"pids\":3.0}"), none);
    assert_eq!(ResourceLimits::from_json("{\"pids\":-1}"), none);
    assert_eq!(ResourceLimits::from_json("[1,2,3,4,null,]"), none);
    assert_eq!(ResourceLimits::from_json(""), none);
    assert_eq!(ResourceLimits::from_json("{}"), none);
}

#[test]
fn json_is_taken_apart() {
    let ms = members(" { \"a\" : [1, {}] , \"b\\n\":null }").unwrap();
    assert_eq!(ms.len(), 2);
    assert_eq!((ms[0].0.as_str(), ms[0].1.trim()), ("a", "[1, {}]"));
    assert_eq!((ms[1].0.as_str(), ms[1].1.as_str()), ("b\n", "null"));
    assert_eq!(sole_member(&ms, "a").unwrap().unwrap().trim(), "[1, {}]");
    assert_eq!(sole_member(&ms, "c"), Some(None));
    assert_eq!(sole_member(&vec![ms[0].clone(), ms[0].clone()], "a"), None);
    assert_eq!(members("{ } "), Some(vec![]));
    assert_eq!(members("{} {}"), None);
    assert_eq!(members("[]"), None);
    assert_eq!(elements("[1,[2,3] ]"), Some(vec!["1".to_owned(), "[2,3]".to_owned()]));
    assert_eq!(elements("[]"), Some(vec![]));
    assert_eq!(elements("[1 2]"), None);
    assert_eq!(elements("{}"), None);
}

#[test]
fn opening_fails_with_what_the_database_says() {
    assert!(prepared_so_far(Ok(())).is_ok());
    let locked = SqlFailure::plain("database is locked".into());
    assert!(matches!(
        prepared_so_far(Err(locked)),
        Err(Error::Registry(f)) if f.message == "database is locked"
    ));
}

#[test]
fn opening_creates_the_tables() {
    let path = "file:created?mode=memory&cache=shared";
    let other = shared(path, "");
    let count = "SELECT count(*) FROM sqlite_master WHERE name IN ('sandbox', 'snapshot')";
    let tables = |c: &rusqlite::Connection| -> i64 {
        c.query_row(count, [], |row| row.get(0)).unwrap()
    };
    assert_eq!(tables(&other), 0);
    let _reg = Registry::open(path).unwrap();
    assert_eq!(tables(&other), 2);
}
