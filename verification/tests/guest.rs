//! The guest agent.

use draug::error::{IoFailure, IoKind};
use draug::guest::{
    begin, chunk, reap, spawn_failed, ExitInfo, FirstFrame, GuestConfig, Opening, Reap, Router,
    Session, SessionEvent, SessionStep, WaitOutcome,
};
use draug::proto::{GuestMessage, HostMessage};

fn config() -> GuestConfig {
    GuestConfig {
        socket_path: "/run/draug/guest.sock".into(),
        log_path: "/run/draug/guest.log".into(),
        default_cwd: "/project".into(),
        env: vec![("PATH".into(), "/bin".into())],
        mount_proc: false,
    }
}

fn request(argv: &[&str], tty: bool) -> HostMessage {
    HostMessage::ExecRequest {
        argv: argv.iter().map(|s| s.to_string()).collect(),
        env: vec![("A".into(), "1".into())],
        cwd: None,
        stdin: true,
        tty,
        timeout_ms: Some(400),
    }
}

fn refusal(o: Opening) -> (String, String) {
    match o {
        Opening::Refuse(GuestMessage::Error { kind, message }) => (kind, message),
        _ => panic!("not refused"),
    }
}

#[test]
fn a_request_is_launched() {
    match begin(FirstFrame::Message(request(&["ls", "-l", "x"], false)), &config()) {
        Opening::Launch(l) => {
            assert_eq!(l.program, "ls");
            assert_eq!(l.args, vec!["-l", "x"]);
            assert_eq!(l.cwd, "/project");
            assert_eq!(
                l.env,
                vec![("PATH".to_string(), "/bin".to_string()), ("A".to_string(), "1".to_string())]
            );
            assert!(l.stdin);
            assert_eq!(l.timeout_ms, Some(400));
        }
        _ => panic!("not launched"),
    }
    let elsewhere = HostMessage::ExecRequest {
        argv: vec!["ls".into()],
        env: vec![],
        cwd: Some("/tmp".into()),
        stdin: false,
        tty: false,
        timeout_ms: None,
    };
    assert!(matches!(
        begin(FirstFrame::Message(elsewhere), &config()),
        Opening::Launch(l) if l.cwd == "/tmp" && !l.stdin
    ));
}

#[test]
fn bad_openings_are_answered() {
    let cfg = config();
    let say = |m: &str| ("protocol".to_string(), m.to_string());
    assert_eq!(
        refusal(begin(FirstFrame::Message(HostMessage::Stdin { data: vec![] }), &cfg)),
        say("first frame must be ExecRequest")
    );
    assert_eq!(
        refusal(begin(FirstFrame::Message(request(&[], false)), &cfg)),
        say("empty argv")
    );
    assert_eq!(
        refusal(begin(FirstFrame::Message(request(&["x"], true)), &cfg)),
        say("tty allocation not implemented yet")
    );
    let garbled = IoFailure { kind: IoKind::InvalidData, message: "bad frame: x".into() };
    assert_eq!(refusal(begin(FirstFrame::Failed(garbled), &cfg)), say("bad frame: x"));
    let lost = IoFailure { kind: IoKind::Other, message: "reset".into() };
    assert!(matches!(begin(FirstFrame::Failed(lost), &cfg), Opening::Drop(f) if f.message == "reset"));
    assert!(matches!(begin(FirstFrame::Closed, &cfg), Opening::Ignore));
    match spawn_failed("/no/such/binary", "No such file or directory (os error 2)") {
        GuestMessage::Error { kind, message } => {
            assert_eq!(kind, "spawn-failed");
            assert_eq!(message, "/no/such/binary: No such file or directory (os error 2)");
        }
        _ => panic!("not an error"),
    }
}

const OK: ExitInfo = ExitInfo { code: Some(0), signal: None };
const KILLED: ExitInfo = ExitInfo { code: None, signal: Some(9) };

#[test]
fn a_command_runs_to_its_end() {
    let (mut s, hello) = Session::start(42, true);
    assert!(matches!(hello, GuestMessage::Started { pid: 42 }));
    assert_eq!(s.failure, "");
    assert_eq!(s.step(SessionEvent::Input { empty: false }), SessionStep::Feed);
    assert_eq!(s.step(SessionEvent::Input { empty: true }), SessionStep::CloseStdin);
    assert_eq!(s.step(SessionEvent::Input { empty: false }), SessionStep::Nothing);
    assert_eq!(s.step(SessionEvent::Drained), SessionStep::Nothing);
    assert_eq!(s.step(SessionEvent::Exited(OK)), SessionStep::Nothing);
    assert_eq!(s.step(SessionEvent::Deadline), SessionStep::Nothing);
    assert_eq!(s.step(SessionEvent::Closed), SessionStep::Nothing);
    assert_eq!(s.step(SessionEvent::Drained), SessionStep::Finish);
    assert_eq!(s.step(SessionEvent::Drained), SessionStep::Nothing);
    assert!(matches!(s.terminal(), GuestMessage::Exit { code: Some(0), signal: None }));
}

#[test]
fn the_deadline_kills_and_is_reported() {
    let (mut s, _) = Session::start(1, false);
    assert_eq!(s.step(SessionEvent::Deadline), SessionStep::Kill);
    s.step(SessionEvent::Exited(KILLED));
    assert_eq!(s.step(SessionEvent::Drained), SessionStep::Finish);
    assert!(matches!(s.terminal(), GuestMessage::Error { kind, message }
        if kind == "timeout" && message == "deadline exceeded; process group killed"));
}

#[test]
fn a_closed_connection_cancels() {
    for e in [SessionEvent::Closed, SessionEvent::Lost, SessionEvent::Unexpected] {
        let (mut s, _) = Session::start(1, false);
        assert_eq!(s.step(e), SessionStep::Kill);
        assert_eq!(s.step(SessionEvent::Closed), SessionStep::Nothing);
        s.step(SessionEvent::Exited(KILLED));
        assert!(matches!(s.terminal(), GuestMessage::Exit { code: None, signal: Some(9) }));
    }
    let (mut s, _) = Session::start(1, true);
    assert_eq!(s.step(SessionEvent::StdinBroken), SessionStep::CloseStdin);
    assert_eq!(s.step(SessionEvent::Garbled("frame of 9 bytes".into())), SessionStep::Kill);
    s.step(SessionEvent::Exited(KILLED));
    assert!(matches!(s.terminal(), GuestMessage::Error { kind, message }
        if kind == "protocol" && message == "frame of 9 bytes"));
}

#[test]
fn statuses_reach_whoever_waits_in_either_order() {
    let mut r: Router<&str> = Router::router();
    assert_eq!(r.route(7, OK), None);
    assert_eq!(r.wait_child(7, "late"), Some(OK));
    // Delivered once: the next one has to wait.
    assert_eq!(r.wait_child(7, "early"), None);
    assert_eq!(r.wait_child(8, "other"), None);
    assert_eq!(r.route(7, KILLED), Some("early"));
    assert_eq!(r.route(7, OK), None);
    assert_eq!(r.route(8, OK), Some("other"));
}

#[test]
fn waits_are_sorted_out() {
    assert_eq!(
        reap(WaitOutcome::Exited { pid: 3, code: 5 }),
        Reap::Route { pid: 3, info: ExitInfo { code: Some(5), signal: None } }
    );
    assert_eq!(
        reap(WaitOutcome::Signaled { pid: 3, signal: 9 }),
        Reap::Route { pid: 3, info: KILLED }
    );
    assert_eq!(reap(WaitOutcome::Other), Reap::Again);
    assert_eq!(reap(WaitOutcome::Interrupted), Reap::Again);
    assert_eq!(reap(WaitOutcome::Failed), Reap::Pause);
}

#[test]
fn chunks_say_which_stream() {
    assert!(matches!(chunk(b"x".to_vec(), true), Some(GuestMessage::Stdout { data }) if data == b"x"));
    assert!(matches!(chunk(b"x".to_vec(), false), Some(GuestMessage::Stderr { .. })));
    assert!(chunk(vec![], true).is_none());
}
