//! Spawning, snapshotting, destroying and reconciling.

use draug::error::{Error, IoFailure, IoKind, ResourceKind};
use draug::helpers::{
    after_copy, after_removal, cleaned_up, cleanup_failed, cleanup_line, copy_done, copy_failed,
    copy_line, err_line, helper_ended, helper_next, helper_timed_out, probe_failed, role,
    told_to_go, unknown_role, userns_available, Direct, HelperStage, HelperStep, ProbeRun, Role,
};
use draug::layout::{cgroup_file, op_lock_path, pid_file, snapshot_dir, socket_path, state_dir};
use draug::lifecycle::{
    counts_as_reaped, destroy_next, flock_try, lookup_outcome, reconcile_step, thaw_needed,
    DestroyStage, FlockResult, LockTry, Outcome, Reconcile,
};
use draug::limits::ResourceLimits;
use draug::procs::{
    guest_alive, kill_failed, kill_step, proc_starttime, proc_stat, read_live_guest, read_record,
    write_record, KillStep, ProcStat, KILL_CHECKS,
};
use draug::registry::Registry;
use draug::snapshot::{
    check_name, dir_failed, new_snapshot, read_cgroup_path, resolve_layer, restore_from, snap_next,
    SnapStage,
};
use draug::spawn::{
    guest_died, id_of_bytes, made_ready, new_sandbox, seed_failed, seed_paths, setup_config,
    setup_ended, setup_error, setup_timed_out, spawn_next, state_subdirs, unix_now,
    validate_project_dir, ProjectDir, SetupDriver, SetupStep, SpawnStage, USERNS_ADVICE,
};
use draug::types::{Sandbox, SandboxId, SandboxSpec, SandboxState, SnapshotId};

fn failure(kind: IoKind, message: &str) -> IoFailure {
    IoFailure { kind, message: message.into() }
}

fn spec(name: Option<&str>) -> SandboxSpec {
    SandboxSpec {
        name: name.map(str::to_owned),
        rootfs: "/given".into(),
        from_snapshot: None,
        limits: ResourceLimits { pids: Some(5), ..ResourceLimits::unlimited() },
        env: vec![("A".into(), "b".into())],
        network: true,
        allow_host_proc_fallback: false,
    }
}

fn sandbox(id: &str) -> Sandbox {
    new_sandbox(&spec(Some("dev")), SandboxId(id.into()), format!("/state/{id}"), "/project".into(), 7)
}

// --- spawning ----------------------------------------------------------------

#[test]
fn project_directories_are_checked() {
    let ok = ProjectDir::Directory("/a/b c".into());
    assert_eq!(validate_project_dir("b", ok), Ok("/a/b c".to_string()));
    assert_eq!(
        validate_project_dir("b", ProjectDir::Unresolved(failure(IoKind::NotFound, "gone"))),
        Err(Error::InvalidSpec("project dir b: gone".into()))
    );
    assert_eq!(
        validate_project_dir("b", ProjectDir::NotDirectory("/b".into())),
        Err(Error::InvalidSpec("project path /b is not a directory".into()))
    );
    for (path, shown) in
        [("/a,b:c", "','"), ("/a:b", "':'"), ("/a\\b", "'\\\\'"), ("/a\nb", "'\\n'"), ("/a\u{7f}", "'\\u{7f}'")]
    {
        assert_eq!(
            validate_project_dir("x", ProjectDir::Directory(path.into())),
            Err(Error::InvalidSpec(format!(
                "project path {path} contains {shown}, which cannot be expressed safely in overlayfs mount options"
            )))
        );
    }
}

#[test]
fn ids_are_hexadecimal() {
    assert_eq!(id_of_bytes(&vec![0, 1, 0xab, 0xff]), "0001abff");
    assert_eq!(id_of_bytes(&vec![0x10; 16]).len(), 32);
    assert_eq!(unix_now(Some(1_700_000_000)), 1_700_000_000);
    assert_eq!(unix_now(None), 0);
}

#[test]
fn a_new_sandbox_is_being_created() {
    let sb = sandbox("i1");
    assert_eq!(sb.state, SandboxState::Creating);
    assert_eq!(sb.backend, "ns");
    assert_eq!(sb.rootfs, "/project");
    assert_eq!(sb.limits.pids, Some(5));
    assert_eq!(sb.created_at, 7);
    assert_eq!(made_ready(sb).state, SandboxState::Ready);
    assert_eq!(state_subdirs(), vec!["upper", "work", "rt", "root"]);
}

#[test]
fn setup_is_told_everything() {
    let cfg = setup_config(&sandbox("i1"), &spec(Some("dev")), "/project", true);
    assert_eq!(cfg.hostname, "dev");
    assert_eq!(cfg.project_dir, "/project");
    assert_eq!(cfg.env, vec![("A".to_string(), "b".to_string())]);
    assert!(cfg.network && cfg.host_is_root && !cfg.allow_host_proc_fallback);
    assert_eq!(setup_config(&sandbox("i1"), &spec(None), "/p", false).hostname, "draug-i1");
}

#[test]
fn setup_errors_are_classified() {
    assert_eq!(
        setup_error("unshare(CLONE_NEWUSER) failed"),
        Error::Unsupported(format!("unshare(CLONE_NEWUSER) failed{USERNS_ADVICE}"))
    );
    assert_eq!(setup_error("overlay mount: x"), Error::Unsupported("overlay mount: x".into()));
    assert_eq!(
        setup_error("fork: x").message(),
        "io error during sandbox setup: fork: x"
    );
    assert_eq!(
        setup_ended("  boom\n").message(),
        "io error during sandbox setup: setup process exited before the guest was ready: boom"
    );
    assert_eq!(setup_timed_out().message(), "io error during sandbox setup: sandbox setup timed out");
    assert_eq!(
        guest_died().message(),
        "io error during sandbox setup: guest died immediately after setup"
    );
    assert_eq!(
        seed_failed(&Error::Protocol("x".into())).message(),
        "io error during seed upper from snapshot: guest protocol error: x"
    );
}

#[test]
fn the_setup_process_is_listened_to() {
    let mut d = SetupDriver::new();
    assert!(matches!(d.line("unshared"), SetupStep::MapIds));
    assert!(matches!(d.line("chatter"), SetupStep::Continue));
    assert!(matches!(d.line("warn careful"), SetupStep::Warn(m) if m == "sbx: warning: careful"));
    assert!(matches!(d.line("ready"), SetupStep::Fail(e)
        if e.message().ends_with("guest ready before pid was reported")));
    assert!(matches!(d.line("pid  4711 "), SetupStep::Continue));
    assert!(matches!(d.line("ready"), SetupStep::Ready(4711)));
    assert!(matches!(d.line("pid nonsense"), SetupStep::Continue));
    assert!(matches!(d.line("ready"), SetupStep::Fail(_)));
    assert!(matches!(d.line("err fork: no"), SetupStep::Fail(e) if e.message().ends_with("fork: no")));
}

#[test]
fn a_spawn_goes_its_course() {
    let mut s = SpawnStage::Validate;
    let mut seen = vec![];
    while s != SpawnStage::Ready {
        seen.push(s);
        s = spawn_next(s, true, false, false);
    }
    assert_eq!(
        seen,
        vec![
            SpawnStage::Validate,
            SpawnStage::NewId,
            SpawnStage::MakeDir,
            SpawnStage::MakeSubdirs,
            SpawnStage::Lock,
            SpawnStage::Insert,
            SpawnStage::Cgroup,
            SpawnStage::StartSetup,
            SpawnStage::Drive,
            SpawnStage::ReadStart,
            SpawnStage::RecordPid,
            SpawnStage::MarkReady,
        ]
    );
    assert_eq!(spawn_next(SpawnStage::Lock, true, true, false), SpawnStage::FindSnapshot);
    assert_eq!(spawn_next(SpawnStage::FindSnapshot, true, true, false), SpawnStage::Seed);
    assert_eq!(spawn_next(SpawnStage::Cgroup, true, false, true), SpawnStage::RecordCgroup);
    // No directory yet: just failed. No record yet: the directory goes first.
    // After the record: everything is torn down first.
    assert_eq!(spawn_next(SpawnStage::MakeDir, false, false, false), SpawnStage::Failed);
    for s in [
        SpawnStage::MakeSubdirs,
        SpawnStage::Lock,
        SpawnStage::FindSnapshot,
        SpawnStage::Seed,
        SpawnStage::Insert,
    ] {
        assert_eq!(spawn_next(s, false, true, false), SpawnStage::Clear);
    }
    assert_eq!(spawn_next(SpawnStage::Clear, true, false, false), SpawnStage::Failed);
    // A cgroup that could not be recorded is removed.
    assert_eq!(spawn_next(SpawnStage::RecordCgroup, false, false, true), SpawnStage::DropCgroup);
    assert_eq!(spawn_next(SpawnStage::DropCgroup, false, false, true), SpawnStage::RollBack);
    // So is a guest whose process is not on record yet.
    for s in [SpawnStage::Drive, SpawnStage::ReadStart, SpawnStage::RecordPid] {
        assert_eq!(spawn_next(s, false, false, false), SpawnStage::KillGuest);
    }
    assert_eq!(spawn_next(SpawnStage::KillGuest, true, false, false), SpawnStage::RollBack);
    assert_eq!(spawn_next(SpawnStage::MarkReady, false, false, false), SpawnStage::RollBack);
    assert_eq!(spawn_next(SpawnStage::RollBack, true, false, false), SpawnStage::Failed);
}

// --- snapshots ---------------------------------------------------------------

#[test]
fn snapshots_need_a_name() {
    assert_eq!(
        check_name(" \t"),
        Err(Error::InvalidSpec("snapshot name must not be empty".into()))
    );
    assert_eq!(check_name(" x "), Ok(()));
    let m = new_snapshot(&sandbox("i1"), SnapshotId("s1".into()), "n", "/snaps/s1".into(), 9);
    assert_eq!(m.sandbox_id, Some(SandboxId("i1".into())));
    assert_eq!((m.rootfs.as_str(), m.size_bytes, m.created_at), ("/project", 0, 9));
    let id = SnapshotId("s1".into());
    assert_eq!(
        dir_failed(&id, failure(IoKind::AlreadyExists, "x")),
        Error::AlreadyExists { kind: ResourceKind::Snapshot, id: "s1".into() }
    );
    assert_eq!(
        dir_failed(&id, failure(IoKind::Other, "x")).message(),
        "io error during create snapshot dir: x"
    );
    assert_eq!(read_cgroup_path(Some(" /sys/x\n")), Some("/sys/x".to_string()));
    assert_eq!(read_cgroup_path(Some("\n")), None);
    assert_eq!(read_cgroup_path(None), None);
}

#[test]
fn a_snapshot_goes_its_course() {
    let mut s = SnapStage::CheckName;
    let mut seen = vec![];
    while s != SnapStage::Done {
        seen.push(s);
        s = snap_next(s, true, true);
    }
    assert_eq!(
        &seen[6..],
        &[
            SnapStage::MakeDir,
            SnapStage::Insert,
            SnapStage::Freeze,
            SnapStage::Sync { frozen: true },
            SnapStage::Copy { frozen: true },
            SnapStage::Thaw { copied: true },
            SnapStage::SetSize,
        ]
    );
    // A copy that fails is undone, but what was frozen is thawed first.
    let after = snap_next(SnapStage::Copy { frozen: true }, false, true);
    assert_eq!(after, SnapStage::Thaw { copied: false });
    assert_eq!(snap_next(after, true, true), SnapStage::Undo);
    assert_eq!(snap_next(SnapStage::Copy { frozen: false }, false, false), SnapStage::Undo);
    assert_eq!(snap_next(SnapStage::Freeze, false, true), SnapStage::Sync { frozen: false });
    assert_eq!(snap_next(SnapStage::Insert, false, true), SnapStage::Clear);
    assert_eq!(snap_next(SnapStage::Clear, true, true), SnapStage::Failed);
    assert_eq!(snap_next(SnapStage::Find, false, true), SnapStage::Failed);
}

#[test]
fn snapshots_win_over_sandboxes() {
    let mut reg = Registry::open_in_memory().unwrap();
    reg.insert_sandbox(&sandbox("i1")).unwrap();
    let l = resolve_layer(&mut reg, "dev").unwrap_or_else(|e| panic!("{}", e.message()));
    assert_eq!((l.upper.as_str(), l.base.as_str()), ("/state/i1/upper", "/project"));
    let snap = new_snapshot(&sandbox("i1"), SnapshotId("s1".into()), "dev", "/snaps/s1".into(), 9);
    reg.insert_snapshot(&snap).unwrap();
    let l = resolve_layer(&mut reg, "dev").unwrap_or_else(|e| panic!("{}", e.message()));
    assert_eq!((l.upper.as_str(), l.base.as_str()), ("/snaps/s1/upper", "/project"));
    assert!(matches!(
        resolve_layer(&mut reg, "none"),
        Err(Error::NotFound { kind: ResourceKind::Sandbox, .. })
    ));

    let spec = restore_from(&mut reg, "dev", Some("new".into())).unwrap();
    assert_eq!(spec.name.as_deref(), Some("new"));
    assert_eq!(spec.from_snapshot, Some(SnapshotId("s1".into())));
    assert_eq!(spec.rootfs, "/project");
    assert!(!spec.network && spec.env.is_empty());
    assert!(matches!(
        restore_from(&mut reg, "none", None),
        Err(Error::NotFound { kind: ResourceKind::Snapshot, .. })
    ));
}

// --- the guest's process -----------------------------------------------------

const STAT: &str =
    "42 (a) b) c) S 1 42 42 0 -1 4194560 1 2 3 4 5 6 7 8 20 0 1 0 987654 1000 100 18446744073709551615";

#[test]
fn process_tables_are_read() {
    assert_eq!(proc_stat(STAT), Some(ProcStat { starttime: 987654, zombie: false }));
    assert_eq!(proc_starttime(Some(STAT)), Some(987654));
    assert_eq!(proc_starttime(None), None);
    assert_eq!(proc_stat(&STAT.replace(" S ", " Z ")).map(|s| s.zombie), Some(true));
    assert_eq!(proc_stat("42 no brackets"), None);
    assert_eq!(proc_stat("42 (x) S 1 2 3"), None);
    assert_eq!(proc_stat(&STAT.replace("987654", "-1")), None);
}

#[test]
fn a_guest_is_known_by_its_start_time() {
    let file = write_record(42, 987654);
    assert_eq!(file, "42 987654\n");
    assert_eq!(read_record(&file), Some((42, 987654)));
    assert_eq!(read_record("42"), None);
    assert_eq!(read_record("x 1"), None);
    assert_eq!(read_live_guest(Some(&file), Some(STAT)), Some(42));
    assert!(guest_alive(Some(&file), Some(STAT)));
    // Gone, another process, a zombie, no record.
    assert_eq!(read_live_guest(Some(&file), None), None);
    assert_eq!(read_live_guest(Some("42 1\n"), Some(STAT)), None);
    assert!(!guest_alive(Some(&file), Some(&STAT.replace(" S ", " Z "))));
    assert!(!guest_alive(None, Some(STAT)));
}

#[test]
fn killing_is_given_up_after_a_while() {
    let there = Some(ProcStat { starttime: 1, zombie: false });
    assert_eq!(kill_step(1, None), KillStep::Gone);
    assert_eq!(kill_step(1, Some(ProcStat { starttime: 1, zombie: true })), KillStep::Gone);
    assert_eq!(kill_step(KILL_CHECKS - 1, there), KillStep::Wait);
    assert_eq!(kill_step(KILL_CHECKS, there), KillStep::GiveUp);
    assert_eq!(
        kill_failed(7).message(),
        "io error during kill sandbox: guest pid 7 did not exit after SIGKILL"
    );
}

// --- destroying and reconciling ----------------------------------------------

#[test]
fn a_destruction_goes_its_course() {
    let mut s = DestroyStage::Find;
    let mut seen = vec![];
    while s != DestroyStage::Done {
        seen.push(s);
        s = destroy_next(s, Outcome::Fine);
    }
    assert_eq!(
        seen,
        vec![
            DestroyStage::Find,
            DestroyStage::Lock,
            DestroyStage::Kill,
            DestroyStage::Cgroup,
            DestroyStage::RemoveDir,
            DestroyStage::RemoveRow,
        ]
    );
    assert_eq!(destroy_next(DestroyStage::Find, Outcome::Missing), DestroyStage::Done);
    assert_eq!(destroy_next(DestroyStage::Lock, Outcome::Failed), DestroyStage::Kill);
    assert_eq!(destroy_next(DestroyStage::Cgroup, Outcome::Failed), DestroyStage::RemoveDir);
    assert_eq!(destroy_next(DestroyStage::Kill, Outcome::Failed), DestroyStage::Failed);
    let gone = Err(Error::NotFound { kind: ResourceKind::Sandbox, id: "x".into() });
    assert_eq!(lookup_outcome(&gone), Outcome::Missing);
    assert_eq!(lookup_outcome(&Err(Error::Protocol("x".into()))), Outcome::Failed);
    assert_eq!(lookup_outcome(&Ok(sandbox("i"))), Outcome::Fine);
}

#[test]
fn only_crashed_sandboxes_are_reaped() {
    let ours = sandbox("i");
    let mut theirs = sandbox("j");
    theirs.backend = "vm".into();
    assert_eq!(reconcile_step(&theirs, false, true, None), Reconcile::Leave);
    assert_eq!(reconcile_step(&ours, true, true, None), Reconcile::Thaw);
    assert_eq!(reconcile_step(&ours, false, false, None), Reconcile::DropRow);
    assert_eq!(reconcile_step(&ours, false, true, None), Reconcile::TryLock);
    assert_eq!(reconcile_step(&ours, false, true, Some(LockTry::Taken)), Reconcile::Reap);
    assert_eq!(reconcile_step(&ours, false, true, Some(LockTry::Busy)), Reconcile::Leave);
    assert_eq!(reconcile_step(&ours, false, true, Some(LockTry::Unknown)), Reconcile::Leave);
    assert!(counts_as_reaped(Reconcile::DropRow, true));
    assert!(!counts_as_reaped(Reconcile::DropRow, false));
    assert!(counts_as_reaped(Reconcile::Reap, true));
    assert!(!counts_as_reaped(Reconcile::Reap, false));
    assert!(thaw_needed(true, LockTry::Taken, true));
    assert!(!thaw_needed(true, LockTry::Busy, true));
    assert!(!thaw_needed(false, LockTry::Taken, true));
    assert!(!thaw_needed(true, LockTry::Taken, false));
}

#[test]
fn locks_are_tried() {
    let opened = Ok(());
    assert_eq!(flock_try(&opened, &FlockResult::Locked), LockTry::Taken);
    assert_eq!(flock_try(&opened, &FlockResult::WouldBlock), LockTry::Busy);
    let f = failure(IoKind::Other, "x");
    assert_eq!(flock_try(&opened, &FlockResult::Failed(f.clone())), LockTry::Unknown);
    assert_eq!(flock_try(&Err(f), &FlockResult::Locked), LockTry::Unknown);
    let gone = Err(failure(IoKind::NotFound, "x"));
    assert_eq!(flock_try(&gone, &FlockResult::Locked), LockTry::Busy);
}

#[test]
fn the_state_directory_has_its_places() {
    let id = SandboxId("i1".into());
    assert_eq!(state_dir("/root/draug", &id), "/root/draug/i1");
    assert_eq!(snapshot_dir("/root/draug/", &SnapshotId("s".into())), "/root/draug/snapshots/s");
    assert_eq!(op_lock_path("/d"), "/d/op.lock");
    assert_eq!(pid_file("/d"), "/d/guest.pid");
    assert_eq!(cgroup_file("/d"), "/d/cgroup.path");
    assert_eq!(socket_path("/d"), "/d/rt/guest.sock");
}

// --- helpers -----------------------------------------------------------------

#[test]
fn helpers_are_listened_to() {
    assert!(matches!(cleanup_line("unshared"), HelperStep::MapIds));
    assert!(matches!(cleanup_line("done"), HelperStep::Done(())));
    assert!(matches!(cleanup_line("done 3"), HelperStep::Continue));
    assert!(matches!(cleanup_line("err no"), HelperStep::Fail(e)
        if e.message() == "io error during cleanup helper: no"));
    assert!(matches!(copy_line("unshared"), HelperStep::MapIds));
    assert!(matches!(copy_line("done  12 "), HelperStep::Done(12)));
    assert!(matches!(copy_line("done"), HelperStep::Continue));
    for (line, why) in [
        ("done ", "cannot parse integer from empty string"),
        ("done x", "invalid digit found in string"),
        ("done +", "invalid digit found in string"),
        ("done 12x", "invalid digit found in string"),
        ("done 18446744073709551616", "number too large to fit in target type"),
        ("done 18446744073709551616x", "number too large to fit in target type"),
    ] {
        assert!(matches!(copy_line(line), HelperStep::Fail(e)
            if e.message() == format!("io error during copy helper: {why}")), "{line}");
    }
    assert!(matches!(copy_line("err no"), HelperStep::Fail(_)));
    assert_eq!(
        helper_ended("copy helper").message(),
        "io error during copy helper: helper exited without confirming"
    );
    assert_eq!(
        helper_timed_out("cleanup helper").message(),
        "io error during cleanup helper: timed out"
    );
    assert_eq!(copy_done(12), "done 12");
    assert!(matches!(copy_line(&copy_done(u64::MAX)), HelperStep::Done(u64::MAX)));
}

#[test]
fn what_needs_a_helper() {
    assert!(matches!(after_removal(Ok(())), Direct::Done(())));
    assert!(matches!(after_removal(Err(failure(IoKind::NotFound, "x"))), Direct::Done(())));
    assert!(matches!(after_removal(Err(failure(IoKind::PermissionDenied, "x"))), Direct::Helper));
    assert!(matches!(after_removal(Err(failure(IoKind::Other, "x"))), Direct::Fail(e)
        if e.message() == "io error during remove state dir: x"));
    assert!(matches!(after_copy(Ok(5)), Direct::Done(5)));
    assert!(matches!(after_copy(Err(failure(IoKind::PermissionDenied, "x"))), Direct::Helper));
    assert!(matches!(after_copy(Err(failure(IoKind::NotFound, "x"))), Direct::Fail(e)
        if e.message() == "io error during copy layer: x"));
}

#[test]
fn helpers_do_their_part() {
    assert_eq!(role(None), Role::Program);
    assert_eq!(role(Some("setup")), Role::Setup);
    assert_eq!(role(Some("probe")), Role::Probe);
    assert_eq!(role(Some("cleanup")), Role::Cleanup);
    assert_eq!(role(Some("copy")), Role::Copy);
    assert_eq!(role(Some("Copy")), Role::Unknown);
    assert_eq!(unknown_role("a\"b"), "draug-ns: unknown re-exec mode \"a\\\"b\"");
    assert!(probe_failed("EPERM").starts_with("unshare(CLONE_NEWUSER) failed: EPERM. Unprivileged"));
    assert_eq!(err_line("a\nb\n"), "err a b ");
    assert!(told_to_go(Some("go\n")));
    assert!(!told_to_go(Some("stop\n")));
    assert!(!told_to_go(None));
    let mut s = HelperStage::Start;
    for want in [HelperStage::Unshare, HelperStage::Await, HelperStage::Work, HelperStage::Done] {
        s = helper_next(s, true);
        assert_eq!(s, want);
    }
    assert_eq!(helper_next(HelperStage::Await, false), HelperStage::Failed);
    assert_eq!(cleanup_failed(HelperStage::Start, "", ""), "cleanup: no directory given");
    assert_eq!(cleanup_failed(HelperStage::Unshare, "/d", "E"), "cleanup: unshare(CLONE_NEWUSER): E");
    assert_eq!(
        cleanup_failed(HelperStage::Await, "/d", ""),
        "cleanup: host did not confirm uid mapping"
    );
    assert_eq!(cleanup_failed(HelperStage::Work, "/d", "E"), "cleanup: remove /d: E");
    assert_eq!(copy_failed(HelperStage::Start, ""), "copy: missing source or destination");
    assert_eq!(copy_failed(HelperStage::Work, "E"), "copy: E");
    assert!(cleaned_up(&Ok(())));
    assert!(cleaned_up(&Err(failure(IoKind::NotFound, ""))));
    assert!(!cleaned_up(&Err(failure(IoKind::Other, ""))));
}

#[test]
fn probes_are_understood() {
    assert_eq!(userns_available(ProbeRun::Succeeded), Ok(()));
    assert_eq!(
        userns_available(ProbeRun::Failed(b" no \xff\n".to_vec())),
        Err("no \u{fffd}".to_string())
    );
    assert_eq!(
        userns_available(ProbeRun::NotStarted(failure(IoKind::NotFound, "gone"))),
        Err("failed to re-exec self for probe: gone".to_string())
    );
}

// --- whole operations --------------------------------------------------------

#[test]
fn a_restored_sandbox_is_a_new_one() {
    let mut reg = Registry::open_in_memory().unwrap();
    reg.insert_sandbox(&sandbox("i1")).unwrap();
    let snap = new_snapshot(&sandbox("i1"), SnapshotId("s1".into()), "n", "/snaps/s1".into(), 9);
    reg.insert_snapshot(&snap).unwrap();
    for (id, name) in [("i2", "second"), ("i3", "third")] {
        let spec = restore_from(&mut reg, "n", Some(name.into())).unwrap();
        let dir = format!("/state/{id}");
        assert_eq!(
            seed_paths(&snap, &dir),
            ("/snaps/s1/upper".to_string(), format!("/state/{id}/upper"))
        );
        let sb = new_sandbox(&spec, SandboxId(id.into()), dir, spec.rootfs.clone(), 11);
        reg.insert_sandbox(&sb).unwrap();
        reg.update_sandbox_state(&sb.id, SandboxState::Ready).unwrap();
        let got = reg.get_sandbox(name).unwrap();
        assert_eq!((got.id.0.as_str(), got.state), (id, SandboxState::Ready));
        assert_eq!(got.rootfs, snap.rootfs);
        assert_eq!(reg.get_snapshot("s1").unwrap(), snap);
        assert_eq!(reg.get_sandbox("i1").unwrap(), sandbox("i1"));
    }
    assert_eq!(reg.list_sandboxes().unwrap().len(), 3);
}

#[test]
fn a_destroyed_sandbox_leaves_its_snapshots() {
    let mut reg = Registry::open_in_memory().unwrap();
    reg.insert_sandbox(&sandbox("i1")).unwrap();
    let snap = new_snapshot(&sandbox("i1"), SnapshotId("s1".into()), "n", "/snaps/s1".into(), 9);
    reg.insert_snapshot(&snap).unwrap();
    for round in 0..2 {
        let mut stage = destroy_next(DestroyStage::Find, lookup_outcome(&reg.get_sandbox("i1")));
        assert_eq!(stage == DestroyStage::Done, round == 1);
        while stage != DestroyStage::Done {
            if stage == DestroyStage::RemoveRow {
                reg.remove_sandbox(&SandboxId("i1".into())).unwrap();
            }
            stage = destroy_next(stage, Outcome::Fine);
        }
        assert!(reg.list_sandboxes().unwrap().is_empty());
        let kept = reg.get_snapshot("s1").unwrap();
        assert_eq!((kept.sandbox_id, kept.path.as_str()), (None, "/snaps/s1"));
    }
}
