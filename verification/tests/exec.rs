//! The host's side of an exec.

use draug::error::{Error, IoFailure, IoKind, ResourceKind};
use draug::exec::{
    begin_exec, exec_event, open_exec, send_failed, ExecCall, ExecEvent, ExecRequest, GuestFrame,
    SocketStat,
};
use draug::limits::ResourceLimits;
use draug::proto::{GuestMessage, HostMessage};
use draug::registry::Registry;
use draug::types::{Sandbox, SandboxId, SandboxState};

fn sandbox(state: SandboxState) -> Sandbox {
    Sandbox {
        id: SandboxId("sb".into()),
        name: Some("dev".into()),
        state,
        backend: "ns".into(),
        rootfs: "/p".into(),
        state_dir: "/state/sb".into(),
        limits: ResourceLimits::unlimited(),
        created_at: 0,
    }
}

fn request(argv: &[&str]) -> ExecRequest {
    ExecRequest {
        argv: argv.iter().map(|s| s.to_string()).collect(),
        env: vec![("K".into(), "V".into())],
        cwd: Some("/w".into()),
        timeout_ms: Some(5),
    }
}

fn call() -> ExecCall {
    match begin_exec(&sandbox(SandboxState::Ready), request(&["ls"])) {
        Ok(c) => c,
        Err(e) => panic!("{}", e.message()),
    }
}

fn refused(r: Result<ExecCall, Error>) -> Error {
    match r {
        Err(e) => e,
        Ok(_) => panic!("not refused"),
    }
}

const STOPPED: SandboxState = SandboxState::Stopped;

fn stopped() -> Error {
    Error::WrongState { id: "sb".into(), state: STOPPED, op: "exec" }
}

#[test]
fn execs_need_a_sandbox_and_a_command() {
    let e = refused(begin_exec(&sandbox(SandboxState::Creating), request(&["ls"])));
    assert_eq!(e.message(), "cannot exec sandbox sb in state Creating");
    let e = refused(begin_exec(&sandbox(SandboxState::Ready), request(&[])));
    assert_eq!(e, Error::InvalidSpec("exec argv must not be empty".into()));
    let c = call();
    assert_eq!(c.socket, "/state/sb/rt/guest.sock");
    assert!(matches!(c.request, HostMessage::ExecRequest { argv, cwd: Some(w), stdin: false, tty: false,
        timeout_ms: Some(5), .. } if argv == vec!["ls"] && w == "/w"));
}

#[test]
fn execs_find_their_sandbox() {
    let mut reg = Registry::open_in_memory().unwrap();
    let e = refused(open_exec(&mut reg, "dev", request(&["ls"])));
    assert_eq!(e, Error::NotFound { kind: ResourceKind::Sandbox, id: "dev".into() });
    reg.insert_sandbox(&sandbox(SandboxState::Creating)).unwrap();
    assert!(matches!(refused(open_exec(&mut reg, "dev", request(&["ls"]))), Error::WrongState { .. }));
    reg.update_sandbox_state(&SandboxId("sb".into()), SandboxState::Ready).unwrap();
    assert!(matches!(open_exec(&mut reg, "dev", request(&["ls"])), Ok(c) if c.id == "sb"));
}

#[test]
fn only_a_real_socket_will_do() {
    let c = call();
    assert_eq!(c.check_socket(SocketStat::Socket, false), Ok(()));
    assert_eq!(
        c.check_socket(SocketStat::NotSocket, true),
        Err(Error::Protocol(
            "guest socket /state/sb/rt/guest.sock is not a socket (sandbox tampering?); refusing to connect".into()
        ))
    );
    assert_eq!(
        c.check_socket(SocketStat::Missing, true),
        Err(Error::Protocol("guest socket is missing while the guest is alive".into()))
    );
    assert_eq!(c.check_socket(SocketStat::Missing, false), Err(stopped()));
    let f = IoFailure { kind: IoKind::PermissionDenied, message: "no".into() };
    assert_eq!(
        c.check_socket(SocketStat::Failed(f.clone()), true),
        Err(Error::Io { op: "stat guest socket", source: f.clone() })
    );
    assert_eq!(c.connect_failed(&f, true), Error::Protocol("guest socket unreachable: no".into()));
    assert_eq!(c.connect_failed(&f, false), stopped());
    assert_eq!(send_failed(&f), Error::Protocol("send exec request: no".into()));
}

#[test]
fn frames_become_events() {
    let (e, last) = exec_event(GuestFrame::Message(GuestMessage::Started { pid: 3 }));
    assert!(matches!(e, ExecEvent::Started { pid: 3 }) && !last);
    let (e, last) = exec_event(GuestFrame::Message(GuestMessage::Stdout { data: vec![1] }));
    assert!(matches!(e, ExecEvent::Stdout(d) if d == vec![1]) && !last);
    let (e, last) = exec_event(GuestFrame::Message(GuestMessage::Stderr { data: vec![2] }));
    assert!(matches!(e, ExecEvent::Stderr(d) if d == vec![2]) && !last);
    let (e, last) = exec_event(GuestFrame::Message(GuestMessage::Exit { code: Some(3), signal: None }));
    assert!(matches!(e, ExecEvent::Exited { code: Some(3), signal: None }) && last);
    let (e, last) = exec_event(GuestFrame::Message(GuestMessage::Error {
        kind: "timeout".into(),
        message: "late".into(),
    }));
    assert!(matches!(e, ExecEvent::Failed { kind, message } if kind == "timeout" && message == "late") && last);
    let (e, last) = exec_event(GuestFrame::Closed);
    assert!(matches!(e, ExecEvent::Failed { kind, message }
        if kind == "protocol" && message == "guest closed the connection without a terminal frame") && last);
    let (e, last) = exec_event(GuestFrame::Failed(IoFailure { kind: IoKind::Other, message: "x".into() }));
    assert!(matches!(e, ExecEvent::Failed { kind, message }
        if kind == "protocol" && message == "reading guest stream: x") && last);
}
