//! The host's side of an exec.

use vstd::prelude::*;

use crate::error::{Error, IoFailure, ResourceKind};
use crate::layout;
use crate::layout::socket_path;
use crate::paths;
use crate::proto::error_kind::PROTOCOL;
use crate::proto::{GuestMessage, HostMessage};
use crate::registry;
use crate::registry::Registry;
use crate::text::copied;
use crate::types::{Sandbox, SandboxFacts, SandboxState};

verus! {

/// A request to run one command inside a sandbox.
#[derive(Debug, Clone)]
pub struct ExecRequest {
    /// The first is the program; no shell is implied.
    pub argv: Vec<String>,
    /// Extra environment on top of the sandbox's.
    pub env: Vec<(String, String)>,
    pub cwd: Option<String>,
    /// Deadline that the guest enforces, in milliseconds.
    pub timeout_ms: Option<u64>,
}

/// One event in an exec's output stream.
#[derive(Debug, Clone)]
pub enum ExecEvent {
    Started { pid: u32 },
    Stdout(Vec<u8>),
    Stderr(Vec<u8>),
    /// Last event. A nonzero code is normal completion, not an error.
    Exited { code: Option<i32>, signal: Option<i32> },
    /// Last event: the exec itself failed.
    Failed { kind: String, message: String },
}

impl ExecEvent {
    /// No event follows this one.
    pub open spec fn terminal(self) -> bool {
        self is Exited || self is Failed
    }

    /// This reports the failure `kind` with `message`.
    pub open spec fn is_failed(self, kind: Seq<char>, message: Seq<char>) -> bool {
        self matches ExecEvent::Failed { kind: k, message: m } && k@ == kind && m@ == message
    }
}

// --- reaching the guest ------------------------------------------------------

/// An exec that may go ahead: whose guest to reach, and what to ask of it.
pub struct ExecCall {
    pub id: String,
    pub state_dir: String,
    pub socket: String,
    pub request: HostMessage,
}

/// The call asks the guest of the sandbox `f` for `req`.
pub open spec fn calls(c: ExecCall, f: SandboxFacts, req: ExecRequest) -> bool {
    &&& c.id@ == f.id
    &&& c.state_dir@ == f.state_dir
    &&& c.socket@ == layout::guest_socket(f.state_dir)
    &&& c.request == (HostMessage::ExecRequest {
        argv: req.argv,
        env: req.env,
        cwd: req.cwd,
        stdin: false,
        tty: false,
        timeout_ms: req.timeout_ms,
    })
}

/// Starts an exec in the sandbox `sb`. One that is still being created takes
/// none, and there is no empty command.
pub fn begin_exec(sb: &Sandbox, req: ExecRequest) -> (r: Result<ExecCall, Error>)
    ensures
        if sb.state == SandboxState::Creating {
            r matches Err(e) && e.is_wrong_state(sb@.id, SandboxState::Creating, "exec"@)
        } else if req.argv@.len() == 0 {
            r matches Err(e) && e.is_invalid_spec("exec argv must not be empty"@)
        } else {
            &&& r matches Ok(c)
            &&& calls(c, sb@, req)
            &&& c.id@ == sb.id.0@
            &&& c.state_dir@ == sb.state_dir@
            &&& c.socket@ == paths::under(paths::under(sb.state_dir@, "rt"@), "guest.sock"@)
            &&& c.request matches HostMessage::ExecRequest {
                argv,
                env,
                cwd,
                stdin,
                tty,
                timeout_ms,
            }
            &&& argv == req.argv
            &&& env == req.env
            &&& cwd == req.cwd
            &&& !stdin
            &&& !tty
            &&& timeout_ms == req.timeout_ms
        },
{
    match sb.state {
        SandboxState::Creating => {
            return Err(Error::WrongState { id: sb.id.0.clone(), state: sb.state, op: "exec" });
        },
        _ => {},
    }
    if req.argv.len() == 0 {
        return Err(Error::InvalidSpec(copied("exec argv must not be empty")));
    }
    Ok(
        ExecCall {
            id: sb.id.0.clone(),
            state_dir: sb.state_dir.clone(),
            socket: socket_path(sb.state_dir.as_str()),
            request: HostMessage::ExecRequest {
                argv: req.argv,
                env: req.env,
                cwd: req.cwd,
                stdin: false,
                tty: false,
                timeout_ms: req.timeout_ms,
            },
        },
    )
}

/// Starts an exec in the sandbox that `key` names.
pub fn open_exec(reg: &mut Registry, key: &str, req: ExecRequest) -> (r: Result<ExecCall, Error>)
    ensures
        final(reg).same_kind(*old(reg)),
        old(reg).found(final(reg).tables()),
        match r {
            Ok(c) => req.argv@.len() > 0 && exists|f: SandboxFacts| #[trigger]
                final(reg).finds_sandbox(key@, f) && f.state != SandboxState::Creating && calls(
                    c,
                    f,
                    req,
                ),
            Err(e) => {
                ||| e is Registry
                ||| e.is_not_found(ResourceKind::Sandbox, key@) && final(reg).lacks_sandbox(key@)
                ||| exists|f: SandboxFacts| #[trigger]
                    final(reg).finds_sandbox(key@, f) && (if f.state == SandboxState::Creating {
                        e.is_wrong_state(f.id, SandboxState::Creating, "exec"@)
                    } else {
                        req.argv@.len() == 0 && e.is_invalid_spec("exec argv must not be empty"@)
                    })
            },
        },
{
    match reg.get_sandbox(key) {
        Ok(sb) => {
            assert(reg.finds_sandbox(key@, sb@));
            begin_exec(&sb, req)
        },
        Err(e) => Err(e),
    }
}

/// What is found where the guest's socket should be; links are not followed.
pub enum SocketStat {
    Socket,
    NotSocket,
    Missing,
    Failed(IoFailure),
}

impl ExecCall {
    /// This refuses the exec because the guest is gone.
    pub open spec fn stopped(self, e: Error) -> bool {
        e.is_wrong_state(self.id@, SandboxState::Stopped, "exec"@)
    }

    fn guest_gone(&self) -> (r: Error)
        ensures
            self.stopped(r),
    {
        Error::WrongState { id: self.id.clone(), state: SandboxState::Stopped, op: "exec" }
    }

    /// Whether to connect. The socket lies where processes inside the sandbox
    /// can write; they could put a link to any socket of the host in its
    /// place, so only a real socket will do. `alive` says whether the guest
    /// runs.
    pub fn check_socket(&self, stat: SocketStat, alive: bool) -> (r: Result<(), Error>)
        ensures
            match stat {
                SocketStat::Socket => r is Ok,
                SocketStat::NotSocket => r matches Err(e) && e.is_protocol(
                    "guest socket "@ + self.socket@
                        + " is not a socket (sandbox tampering?); refusing to connect"@,
                ),
                SocketStat::Missing => r matches Err(e) && if alive {
                    e.is_protocol("guest socket is missing while the guest is alive"@)
                } else {
                    self.stopped(e)
                },
                SocketStat::Failed(f) => r matches Err(e) && e.is_io("stat guest socket"@, f),
            },
    {
        match stat {
            SocketStat::Socket => Ok(()),
            SocketStat::NotSocket => {
                let mut m: String = copied("guest socket ");
                m.append(self.socket.as_str());
                m.append(" is not a socket (sandbox tampering?); refusing to connect");
                Err(Error::Protocol(m))
            },
            SocketStat::Missing => if alive {
                Err(Error::Protocol(copied("guest socket is missing while the guest is alive")))
            } else {
                Err(self.guest_gone())
            },
            SocketStat::Failed(f) => Err(Error::io("stat guest socket", f)),
        }
    }

    /// What a failure to connect means: a live guest misbehaves, a dead one
    /// means that the sandbox has stopped.
    pub fn connect_failed(&self, f: &IoFailure, alive: bool) -> (r: Error)
        ensures
            if alive {
                r.is_protocol("guest socket unreachable: "@ + f.message@)
            } else {
                self.stopped(r)
            },
    {
        if alive {
            let mut m: String = copied("guest socket unreachable: ");
            m.append(f.message.as_str());
            Error::Protocol(m)
        } else {
            self.guest_gone()
        }
    }
}

/// What a failure to send the request means.
pub fn send_failed(f: &IoFailure) -> (r: Error)
    ensures
        r.is_protocol("send exec request: "@ + f.message@),
{
    let mut m: String = copied("send exec request: ");
    m.append(f.message.as_str());
    Error::Protocol(m)
}

// --- the guest's answers -----------------------------------------------------

/// What came of reading a frame from the guest.
pub enum GuestFrame {
    Message(GuestMessage),
    /// The guest closed the connection.
    Closed,
    Failed(IoFailure),
}

/// The event for a frame from the guest, and whether it is the last. A
/// connection that ends without a last message is a protocol failure.
pub fn exec_event(frame: GuestFrame) -> (r: (ExecEvent, bool))
    ensures
        r.1 == r.0.terminal(),
        r.1 <==> r.0 is Exited || r.0 is Failed,
        match frame {
            GuestFrame::Message(GuestMessage::Started { pid }) => r.0 == (ExecEvent::Started {
                pid,
            }),
            GuestFrame::Message(GuestMessage::Stdout { data }) => r.0 == ExecEvent::Stdout(data),
            GuestFrame::Message(GuestMessage::Stderr { data }) => r.0 == ExecEvent::Stderr(data),
            GuestFrame::Message(GuestMessage::Exit { code, signal }) => r.0 == (ExecEvent::Exited {
                code,
                signal,
            }),
            GuestFrame::Message(GuestMessage::Error { kind, message }) => r.0 == (
            ExecEvent::Failed { kind, message }),
            GuestFrame::Closed => r.0.is_failed(
                "protocol"@,
                "guest closed the connection without a terminal frame"@,
            ),
            GuestFrame::Failed(f) => r.0.is_failed(
                "protocol"@,
                "reading guest stream: "@ + f.message@,
            ),
        },
{
    match frame {
        GuestFrame::Message(GuestMessage::Started { pid }) => (ExecEvent::Started { pid }, false),
        GuestFrame::Message(GuestMessage::Stdout { data }) => (ExecEvent::Stdout(data), false),
        GuestFrame::Message(GuestMessage::Stderr { data }) => (ExecEvent::Stderr(data), false),
        GuestFrame::Message(GuestMessage::Exit { code, signal }) => (
            ExecEvent::Exited { code, signal },
            true,
        ),
        GuestFrame::Message(GuestMessage::Error { kind, message }) => (
            ExecEvent::Failed { kind, message },
            true,
        ),
        GuestFrame::Closed => (
            ExecEvent::Failed {
                kind: copied(PROTOCOL),
                message: copied("guest closed the connection without a terminal frame"),
            },
            true,
        ),
        GuestFrame::Failed(f) => {
            let mut m: String = copied("reading guest stream: ");
            m.append(f.message.as_str());
            (ExecEvent::Failed { kind: copied(PROTOCOL), message: m }, true)
        },
    }
}

} // verus!
