//! The command line and the tools.

use draug::cli::{
    captured, destroy_target, destroyed, differs, failed, no_registry, on_event, parse_env,
    request_for, restored, serving, spawned, state_root, stream_ended, Command, ExecStep, Request,
    EXIT_INTERNAL,
};
use draug::error::{Error, ExecErrorKind, IoFailure, IoKind, ResourceKind, SqlFailure};
use draug::exec::ExecEvent;
use draug::limits::{ResourceLimits, TimeSpan};
use draug::mcp::{
    call_timed_out, check_command, check_quota, check_registry_quota, count_changes, create_spec,
    error_object, exec_request, guest_timeout, sandbox_info, snapshot_info, Collector, CreateArgs,
    ExecArgs, McpConfig,
};
use draug::registry::Registry;
use draug::types::{
    DiffEntry, DiffKind, Sandbox, SandboxId, SandboxState, SnapshotId, SnapshotMeta,
};

fn sandbox(id: &str, name: Option<&str>) -> Sandbox {
    Sandbox {
        id: SandboxId(id.into()),
        name: name.map(str::to_owned),
        state: SandboxState::Ready,
        backend: "ns".into(),
        rootfs: "/p".into(),
        state_dir: "/s".into(),
        limits: ResourceLimits::unlimited(),
        created_at: 3,
    }
}

fn snapshot() -> SnapshotMeta {
    SnapshotMeta {
        id: SnapshotId("s1".into()),
        sandbox_id: Some(SandboxId("i1".into())),
        name: "n".into(),
        path: "/snaps/s1".into(),
        rootfs: "/p".into(),
        size_bytes: 5,
        created_at: 4,
    }
}

fn change(path: &str, kind: DiffKind, size: Option<u64>) -> DiffEntry {
    DiffEntry { path: path.into(), kind, size, mode: None }
}

// --- the command line --------------------------------------------------------

#[test]
fn environments_are_key_value() {
    assert_eq!(
        parse_env(&vec!["A=b".into(), "C=".into(), "D=e=f".into()]),
        Ok(vec![
            ("A".to_string(), "b".to_string()),
            ("C".to_string(), "".to_string()),
            ("D".to_string(), "e=f".to_string()),
        ])
    );
    assert_eq!(
        parse_env(&vec!["A=b".into(), "no\"pe".into()]),
        Err("--env \"no\\\"pe\" is not KEY=VALUE".to_string())
    );
}

#[test]
fn state_lives_where_the_environment_says() {
    assert_eq!(state_root(Some("/x"), Some("/h")), "/x/draug");
    assert_eq!(state_root(None, Some("/h")), "/h/.local/state/draug");
    assert_eq!(state_root(None, None), ".local/state/draug");
}

#[test]
fn commands_become_requests() {
    let run = Command::Run {
        project_dir: "/p".into(),
        name: Some("dev".into()),
        memory_max: Some(1),
        cpu_millis: Some(2),
        pids_max: Some(3),
        network: true,
        insecure_host_proc: true,
        env: vec!["A=b".into()],
    };
    match request_for(run) {
        Ok(Request::Spawn(s)) => {
            assert_eq!(s.rootfs, "/p");
            assert_eq!(
                s.limits,
                ResourceLimits {
                    cpu_millis: Some(2),
                    memory_bytes: Some(1),
                    pids: Some(3),
                    disk_bytes: None,
                    wall_time: None,
                }
            );
            assert_eq!(s.env, vec![("A".to_string(), "b".to_string())]);
            assert!(s.network && s.allow_host_proc_fallback && s.from_snapshot.is_none());
        }
        _ => panic!("not a spawn"),
    }
    let exec = |env: &str| Command::Exec {
        sandbox: "dev".into(),
        cwd: None,
        timeout: Some(2),
        env: vec![env.into()],
        argv: vec!["ls".into()],
    };
    assert!(matches!(request_for(exec("A=b")), Ok(Request::Exec { request, .. })
        if request.timeout_ms == Some(2000) && request.argv == vec!["ls"]));
    assert!(matches!(request_for(exec("A")), Err(Error::InvalidSpec(m)) if m == "--env \"A\" is not KEY=VALUE"));
    assert!(matches!(
        request_for(Command::Mcp { call_timeout: 9, max_sandboxes: 2 }),
        Ok(Request::Serve(McpConfig { call_timeout: TimeSpan { secs: 9, nanos: 0 }, max_sandboxes: 2 }))
    ));
    assert!(matches!(request_for(Command::Diff { target: "t".into(), json: true }),
        Ok(Request::Diff { json: true, .. })));
    assert!(matches!(request_for(Command::Destroy { sandbox: "d".into() }), Ok(Request::Destroy { .. })));
}

#[test]
fn destruction_takes_names_and_unknown_ids() {
    assert_eq!(
        destroy_target(Ok(sandbox("i1", Some("dev"))), "dev"),
        Ok((SandboxId("i1".into()), true))
    );
    let gone = Error::NotFound { kind: ResourceKind::Sandbox, id: "x".into() };
    assert_eq!(destroy_target(Err(gone), "x"), Ok((SandboxId("x".into()), false)));
    let broken = Error::Registry(SqlFailure::plain("locked".into()));
    assert_eq!(destroy_target(Err(broken.clone()), "x"), Err(broken));
}

#[test]
fn reports_are_printed() {
    let r = spawned(&sandbox("i1", Some("dev")));
    assert_eq!((r.out.as_str(), r.err.as_str(), r.code), ("i1\n", "sandbox i1 (dev) is ready\n", 0));
    assert_eq!(spawned(&sandbox("i1", None)).err, "sandbox i1 is ready\n");
    let r = destroyed(&SandboxId("i1".into()));
    assert_eq!((r.out.as_str(), r.err.as_str()), ("", "sandbox i1 destroyed\n"));
    let r = captured(&SnapshotId("s1".into()), "n", &SandboxId("i1".into()));
    assert_eq!((r.out.as_str(), r.err.as_str()), ("s1\n", "snapshot s1 (n) captured from i1\n"));
    let r = restored(&snapshot(), &sandbox("i2", Some("b")));
    assert_eq!((r.out.as_str(), r.err.as_str()), ("i2\n", "restored snapshot s1 into sandbox i2 (b)\n"));
    let r = differs(&vec![
        change("a", DiffKind::Added, Some(3)),
        change("d", DiffKind::Modified, None),
        change("x", DiffKind::Deleted, Some(0)),
    ]);
    assert_eq!(r.out, "+ a (3 bytes)\n~ d\n- x (0 bytes)\n");
    let r = differs(&vec![]);
    assert_eq!((r.out.as_str(), r.err.as_str()), ("", "no changes against the base image\n"));
    assert_eq!(
        serving(&McpConfig::default()),
        "sbx: MCP server on stdio (max 8 sandboxes, 300s call timeout)\n"
    );
    let r = failed(&Error::Unsupported("x".into()));
    assert_eq!((r.err.as_str(), r.code), ("sbx: error: unsupported on this host: x\n", EXIT_INTERNAL));
    assert_eq!(
        no_registry(&Error::Protocol("x".into())).err,
        "sbx: cannot open registry: guest protocol error: x\n"
    );
}

#[test]
fn exit_codes_pass_through() {
    let exited = |code, signal| on_event(ExecEvent::Exited { code, signal });
    assert!(matches!(exited(Some(3), None), ExecStep::Exit(3)));
    assert!(matches!(exited(None, Some(9)), ExecStep::Exit(137)));
    assert!(matches!(exited(None, None), ExecStep::Exit(125)));
    for (kind, want) in [("timeout", 124), ("spawn-failed", 127), ("protocol", 125)] {
        let e = ExecEvent::Failed { kind: kind.into(), message: "m".into() };
        assert!(matches!(on_event(e), ExecStep::Fail { message, code }
            if code == want && message == format!("sbx: exec failed ({kind}): m\n")));
    }
    assert!(matches!(on_event(ExecEvent::Started { pid: 1 }), ExecStep::Continue));
    assert!(matches!(on_event(ExecEvent::Stdout(vec![1])), ExecStep::ToStdout(d) if d == vec![1]));
    assert!(matches!(on_event(ExecEvent::Stderr(vec![2])), ExecStep::ToStderr(d) if d == vec![2]));
    assert!(matches!(stream_ended(), ExecStep::Fail { code: 125, .. }));
}

// --- the tools ---------------------------------------------------------------

#[test]
fn error_object_is_structured_and_actionable() {
    let e = Error::NotFound {
        kind: ResourceKind::Sandbox,
        id: "ghost".into(),
    };
    let v = error_object(&e);
    assert_eq!(v.error, "not_found");
    assert_eq!(v.retriable, false);
    assert!(v.hint.contains("sandbox_list"));
    assert!(v.message.contains("ghost"));
}

#[test]
fn every_error_has_its_class() {
    let io = Error::Io { op: "copy", source: IoFailure { kind: IoKind::Other, message: "x".into() } };
    let cases: Vec<(Error, &str, bool, &str)> = vec![
        (
            Error::AlreadyExists { kind: ResourceKind::Snapshot, id: "n".into() },
            "already_exists",
            false,
            "a snapshot with that name already exists; pick another name",
        ),
        (Error::InvalidSpec("x".into()), "invalid_spec", false, "fix the arguments and try again"),
        (
            Error::WrongState { id: "i".into(), state: SandboxState::Stopped, op: "exec" },
            "wrong_state",
            false,
            "cannot exec a sandbox in state Stopped; inspect it with sandbox_list",
        ),
        (
            Error::Unsupported("x".into()),
            "unsupported",
            false,
            "this host lacks a required kernel facility; the message names the knob",
        ),
        (
            Error::Protocol("x".into()),
            "protocol",
            false,
            "the sandbox's guest agent misbehaved; destroy and recreate the sandbox",
        ),
        (
            Error::Exec { kind: ExecErrorKind::Timeout, message: "x".into() },
            "exec_failed",
            true,
            "the command could not be run; check the program name, cwd, and timeout",
        ),
        (
            Error::Exec { kind: ExecErrorKind::SpawnFailed, message: "x".into() },
            "exec_failed",
            false,
            "the command could not be run; check the program name, cwd, and timeout",
        ),
        (
            Error::Registry(SqlFailure::plain("x".into())),
            "registry",
            true,
            "the registry was busy or errored; retrying may help",
        ),
        (io, "io", true, "an OS operation (copy) failed; the message has details"),
    ];
    for (e, slug, retriable, hint) in cases {
        let v = error_object(&e);
        assert_eq!(v.error, slug);
        assert_eq!(v.retriable, retriable);
        assert_eq!(v.hint, hint);
        assert_eq!(v.message, e.message());
        assert!(v.details.is_none());
    }
    assert_eq!(
        Error::Exec { kind: ExecErrorKind::Cancelled, message: "x".into() }.message(),
        "exec failed (cancelled): x"
    );
}

#[test]
fn the_quota_holds() {
    let cfg = McpConfig { max_sandboxes: 2, ..McpConfig::default() };
    assert!(check_quota(&cfg, Some(1)).is_ok());
    let e = check_quota(&cfg, Some(2)).unwrap_err();
    assert_eq!(e.error, "quota_exceeded");
    assert_eq!(e.message, "at the max of 2 concurrent sandboxes (2 exist)");
    assert!(e.retriable);
    let e = check_quota(&cfg, None).unwrap_err();
    assert_eq!((e.error, e.retriable), ("registry", true));
    assert_eq!(e.hint, "the registry was busy or errored; retrying may help");

    let mut reg = Registry::open_in_memory().unwrap();
    for id in ["a", "b"] {
        assert!(check_registry_quota(&mut reg, &cfg).is_ok());
        reg.insert_sandbox(&sandbox(id, None)).unwrap();
    }
    let e = check_registry_quota(&mut reg, &cfg).unwrap_err();
    assert_eq!(e.error, "quota_exceeded");
    assert_eq!(e.message, "at the max of 2 concurrent sandboxes (2 exist)");
    reg.remove_sandbox(&SandboxId("a".into())).unwrap();
    assert!(check_registry_quota(&mut reg, &cfg).is_ok());
    let e = call_timed_out(&cfg);
    assert_eq!((e.error, e.retriable), ("timeout", true));
    assert_eq!(e.message, "operation exceeded the host call deadline of 300s");
}

#[test]
fn sandboxes_are_created_from_absolute_paths() {
    let args = |dir: &str| CreateArgs {
        project_dir: dir.into(),
        name: None,
        memory_max: Some(1),
        cpu_millis: None,
        pids_max: None,
        network: false,
        env: vec![],
    };
    assert!(matches!(create_spec(args("/p")), Ok(s) if s.rootfs == "/p" && s.limits.memory_bytes == Some(1)));
    let e = create_spec(args("p")).unwrap_err();
    assert_eq!((e.error, e.message.as_str()), ("invalid_argument", "project_dir must be an absolute path"));
    assert_eq!(e.details, Some(("project_dir", "p".to_string())));
    assert_eq!((e.retriable, e.hint.as_str()), (false, "fix the arguments and try again"));
    let i = sandbox_info(&sandbox("i1", Some("dev")));
    assert_eq!((i.id.as_str(), i.state, i.project_dir.as_str(), i.created_at), ("i1", "ready", "/p", 3));
    let s = snapshot_info(&snapshot());
    assert_eq!((s.id.as_str(), s.sandbox_id.as_deref(), s.size_bytes), ("s1", Some("i1"), 5));
}

#[test]
fn the_guests_deadline_comes_first() {
    assert_eq!(guest_timeout(None, 300), 120_000);
    assert_eq!(guest_timeout(Some(1_000_000), 300), 285_000);
    assert_eq!(guest_timeout(Some(5), 300), 5);
    assert_eq!(guest_timeout(None, 16), 1000);
    assert_eq!(guest_timeout(None, 17), 2000);
    assert_eq!(guest_timeout(None, 2), 1000);
    assert_eq!(guest_timeout(None, 1), 500);
    assert_eq!(guest_timeout(Some(7), 1), 7);
    assert_eq!(guest_timeout(None, 0), 1000);
    let cfg = McpConfig { call_timeout: TimeSpan::from_secs(30), max_sandboxes: 1 };
    let args = |command: Vec<String>| ExecArgs { command, cwd: None, timeout_ms: None, env: vec![] };
    assert_eq!(exec_request(args(vec!["ls".into()]), &cfg).timeout_ms, Some(15_000));
    assert!(check_command(&args(vec!["ls".into()])).is_ok());
    let e = check_command(&args(vec![])).unwrap_err();
    assert_eq!(e.message, "command must have at least one element");
    assert_eq!(e.hint, "fix the arguments and try again");
}

#[test]
fn output_is_collected() {
    let mut c = Collector::new();
    assert!(!c.on_event(ExecEvent::Started { pid: 1 }));
    assert!(!c.on_event(ExecEvent::Stdout(b"ou".to_vec())));
    assert!(!c.on_event(ExecEvent::Stderr(b"err".to_vec())));
    assert!(!c.on_event(ExecEvent::Stdout(b"t\xff".to_vec())));
    assert!(c.on_event(ExecEvent::Exited { code: Some(3), signal: None }));
    let r = c.finish(17);
    assert_eq!((r.stdout.as_str(), r.stderr.as_str()), ("out\u{fffd}", "err"));
    assert_eq!((r.exit_code, r.signal, r.duration_ms), (Some(3), None, 17));
    assert!(r.failure.is_none());

    for (kind, timed_out) in [("timeout", true), ("spawn-failed", false)] {
        let mut c = Collector::new();
        assert!(c.on_event(ExecEvent::Failed { kind: kind.into(), message: "m".into() }));
        let f = c.finish(0).failure.unwrap();
        assert_eq!((f.error.as_str(), f.message.as_str(), f.timed_out), (kind, "m", timed_out));
        assert_eq!(f.hint.contains("timeout_ms"), timed_out);
        assert_eq!(f.retriable, timed_out);
    }
}

#[test]
fn changes_are_counted() {
    let v = vec![
        change("a", DiffKind::Added, None),
        change("b", DiffKind::Deleted, None),
        change("c", DiffKind::Added, None),
    ];
    let c = count_changes(&v);
    assert_eq!((c.added, c.modified, c.deleted), (2, 0, 1));
}

#[test]
fn states_are_read_back() {
    for s in [SandboxState::Creating, SandboxState::Ready, SandboxState::Running, SandboxState::Stopped] {
        assert_eq!(SandboxState::parse(s.as_str()), Some(s));
    }
    assert_eq!(SandboxState::parse("Ready"), None);
    assert_eq!(SandboxId::from("x").0, "x");
    assert_eq!(SnapshotId::from("y").0, "y");
}
