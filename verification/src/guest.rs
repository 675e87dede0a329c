//! The guest agent: what PID 1 inside a sandbox does with a connection and
//! with the processes it reaps.

use std::collections::HashMap;

use vstd::prelude::*;

use crate::error::{IoFailure, IoKind};
use crate::proto::error_kind::{PROTOCOL, SPAWN_FAILED, TIMEOUT};
use crate::proto::{GuestMessage, HostMessage, MAX_CHUNK_LEN};
use crate::text;
use crate::text::{copied, copied_pairs};

verus! {

/// Everything the guest needs to run. Paths are those inside the sandbox.
#[derive(Debug)]
pub struct GuestConfig {
    /// Where to bind the exec socket.
    pub socket_path: String,
    /// Where to send the guest's own stdout and stderr after startup.
    pub log_path: String,
    /// Default working directory for execs (the project dir).
    pub default_cwd: String,
    /// Base environment for exec'd commands.
    pub env: Vec<(String, String)>,
    /// Mount a fresh /proc.
    pub mount_proc: bool,
}

// --- opening a connection ----------------------------------------------------

/// What came of reading a connection's first frame.
pub enum FirstFrame {
    Message(HostMessage),
    /// The host closed the connection.
    Closed,
    Failed(IoFailure),
}

/// A command to start.
pub struct Launch {
    pub program: String,
    pub args: Vec<String>,
    /// The whole environment; a later value of a key replaces an earlier one.
    pub env: Vec<(String, String)>,
    pub cwd: String,
    /// Whether the command gets a pipe for its standard input.
    pub stdin: bool,
    pub timeout_ms: Option<u64>,
}

/// What to do with a new connection.
pub enum Opening {
    /// Nothing was asked for: close it.
    Ignore,
    /// The connection broke: close it.
    Drop(IoFailure),
    /// Answer with this message, then close it.
    Refuse(GuestMessage),
    /// Start a command.
    Launch(Launch),
}

impl Opening {
    /// The connection is answered with a protocol error.
    pub open spec fn refuses(self, message: Seq<char>) -> bool {
        self matches Opening::Refuse(m) && m.is_error("protocol"@, message)
    }
}

/// A connection that is refused is told that the protocol was violated, and how.
pub proof fn law_refusal_is_told(o: Opening, message: Seq<char>)
    ensures
        o.refuses(message) <==> (o matches Opening::Refuse(GuestMessage::Error { kind, message: m })
            && kind@ == "protocol"@ && m@ == message),
{
}

/// The answer to a protocol violation.
pub fn protocol_error(message: &str) -> (r: GuestMessage)
    ensures
        r.is_error("protocol"@, message@),
{
    GuestMessage::Error { kind: copied(PROTOCOL), message: copied(message) }
}

/// The answer to a command that could not be started.
pub fn spawn_failed(program: &str, why: &str) -> (r: GuestMessage)
    ensures
        r.is_error("spawn-failed"@, program@ + ": "@ + why@),
{
    let mut m: String = copied(program);
    m.append(": ");
    m.append(why);
    GuestMessage::Error { kind: copied(SPAWN_FAILED), message: m }
}

/// What to do with a connection, given its first frame. A frame that is too
/// large or makes no sense is a protocol error; so is a first frame other than
/// a request, an empty command, and a request for a terminal.
pub fn begin(first: FirstFrame, cfg: &GuestConfig) -> (r: Opening)
    ensures
        match first {
            FirstFrame::Closed => r is Ignore,
            FirstFrame::Failed(f) => if f.kind == IoKind::InvalidData {
                r.refuses(f.message@)
            } else {
                r == Opening::Drop(f)
            },
            FirstFrame::Message(HostMessage::Stdin { data }) => r.refuses(
                "first frame must be ExecRequest"@,
            ),
            FirstFrame::Message(
                HostMessage::ExecRequest { argv, env, cwd, stdin, tty, timeout_ms },
            ) => if argv@.len() == 0 {
                r.refuses("empty argv"@)
            } else if tty {
                r.refuses("tty allocation not implemented yet"@)
            } else {
                &&& r matches Opening::Launch(l)
                &&& l.program@ == argv@[0]@
                &&& text::views(l.args@) == text::views(argv@).skip(1)
                &&& text::pair_views(l.env@) == text::pair_views(cfg.env@) + text::pair_views(env@)
                &&& l.cwd@ == match cwd {
                    Some(c) => c@,
                    None => cfg.default_cwd@,
                }
                &&& l.stdin == stdin
                &&& l.timeout_ms == timeout_ms
            },
        },
{
    match first {
        FirstFrame::Closed => Opening::Ignore,
        FirstFrame::Failed(f) => match f.kind {
            IoKind::InvalidData => Opening::Refuse(protocol_error(f.message.as_str())),
            _ => Opening::Drop(f),
        },
        FirstFrame::Message(HostMessage::Stdin { data: _ }) => Opening::Refuse(
            protocol_error("first frame must be ExecRequest"),
        ),
        FirstFrame::Message(
            HostMessage::ExecRequest { argv, env, cwd, stdin, tty, timeout_ms },
        ) => {
            if argv.len() == 0 {
                return Opening::Refuse(protocol_error("empty argv"));
            }
            if tty {
                return Opening::Refuse(protocol_error("tty allocation not implemented yet"));
            }
            let ghost words = argv@;
            let ghost extra = env@;
            let mut args: Vec<String> = argv;
            let program: String = args.remove(0);
            let mut all: Vec<(String, String)> = copied_pairs(&cfg.env);
            let ghost base = all@;
            let mut env: Vec<(String, String)> = env;
            all.append(&mut env);
            assert(text::views(args@) =~= text::views(words).skip(1));
            assert(text::pair_views(all@) =~= text::pair_views(base) + text::pair_views(extra));
            let cwd: String = match cwd {
                Some(c) => c,
                None => cfg.default_cwd.clone(),
            };
            Opening::Launch(Launch { program, args, env: all, cwd, stdin, timeout_ms })
        },
    }
}

// --- an exec in flight -------------------------------------------------------

/// How a process ended: by its exit code or by a signal.
#[derive(Debug, Clone, Copy, PartialEq, Eq, Structural)]
pub struct ExitInfo {
    pub code: Option<i32>,
    pub signal: Option<i32>,
}

/// The state of an exec.
#[derive(Debug, Clone, Copy, PartialEq, Eq, Structural)]
pub struct SessionState {
    /// The command's standard input can still be written.
    pub stdin_open: bool,
    /// Frames from the host are still read.
    pub listening: bool,
    /// How the command ended, once it has.
    pub exit: Option<ExitInfo>,
    /// The deadline passed while the command ran.
    pub timed_out: bool,
    /// The host broke the protocol while the command ran.
    pub garbled: bool,
    /// The last message was delivered.
    pub finished: bool,
}

/// An exec: its state, and what the host's protocol violation was.
#[derive(Debug)]
pub struct Session {
    pub state: SessionState,
    pub failure: String,
}

/// What happens to an exec.
#[derive(Debug)]
pub enum SessionEvent {
    /// Input for the command arrived; empty input ends it.
    Input { empty: bool },
    /// A frame arrived that has no place here.
    Unexpected,
    /// The host closed the connection.
    Closed,
    /// The connection broke.
    Lost,
    /// A frame was too large or made no sense.
    Garbled(String),
    /// The command's standard input could not be written.
    StdinBroken,
    /// The deadline passed.
    Deadline,
    /// The command ended.
    Exited(ExitInfo),
    /// All output was sent.
    Drained,
}

/// What to do about it.
#[derive(Debug, Clone, Copy, PartialEq, Eq, Structural)]
pub enum SessionStep {
    Nothing,
    /// Write the input to the command.
    Feed,
    /// Close the command's standard input.
    CloseStdin,
    /// Kill the command's process group.
    Kill,
    /// Send the last message and shut the connection down.
    Finish,
}

/// The state of an exec that was just started.
pub open spec fn started(stdin: bool) -> SessionState {
    SessionState {
        stdin_open: stdin,
        listening: true,
        exit: None,
        timed_out: false,
        garbled: false,
        finished: false,
    }
}

/// The state after an event.
pub open spec fn session_next(s: SessionState, e: SessionEvent) -> SessionState {
    match e {
        SessionEvent::Input { empty } => SessionState {
            stdin_open: s.stdin_open && !(s.listening && empty),
            ..s
        },
        SessionEvent::Unexpected | SessionEvent::Closed | SessionEvent::Lost => SessionState {
            listening: false,
            ..s
        },
        SessionEvent::Garbled(_) => SessionState {
            listening: false,
            garbled: s.garbled || (s.listening && s.exit is None),
            ..s
        },
        SessionEvent::StdinBroken => SessionState { stdin_open: false, ..s },
        SessionEvent::Deadline => SessionState { timed_out: s.timed_out || s.exit is None, ..s },
        SessionEvent::Exited(info) => SessionState {
            exit: match s.exit {
                Some(i) => Some(i),
                None => Some(info),
            },
            ..s
        },
        SessionEvent::Drained => SessionState { finished: s.finished || s.exit is Some, ..s },
    }
}

/// What an event calls for: input is fed while the command takes it; the host
/// going away, or the deadline passing, kills a command that still runs; once
/// it has ended and its output is sent, the last message follows.
pub open spec fn session_step(s: SessionState, e: SessionEvent) -> SessionStep {
    match e {
        SessionEvent::Input { empty } => if !s.listening || !s.stdin_open {
            SessionStep::Nothing
        } else if empty {
            SessionStep::CloseStdin
        } else {
            SessionStep::Feed
        },
        SessionEvent::Unexpected | SessionEvent::Closed | SessionEvent::Lost
        | SessionEvent::Garbled(_) => if s.listening && s.exit is None {
            SessionStep::Kill
        } else {
            SessionStep::Nothing
        },
        SessionEvent::StdinBroken => if s.stdin_open {
            SessionStep::CloseStdin
        } else {
            SessionStep::Nothing
        },
        SessionEvent::Deadline => if s.exit is None {
            SessionStep::Kill
        } else {
            SessionStep::Nothing
        },
        SessionEvent::Exited(_) => SessionStep::Nothing,
        SessionEvent::Drained => if s.exit is Some && !s.finished {
            SessionStep::Finish
        } else {
            SessionStep::Nothing
        },
    }
}

impl Session {
    /// An exec that was just started, and the message that says so.
    pub fn start(pid: u32, stdin: bool) -> (r: (Session, GuestMessage))
        ensures
            r.0.state == started(stdin),
            r.0.state.stdin_open == stdin,
            r.0.state.listening,
            r.0.state.exit is None,
            !r.0.state.timed_out,
            !r.0.state.garbled,
            !r.0.state.finished,
            r.0.failure@.len() == 0,
            r.1 == (GuestMessage::Started { pid }),
    {
        (
            Session {
                state: SessionState {
                    stdin_open: stdin,
                    listening: true,
                    exit: None,
                    timed_out: false,
                    garbled: false,
                    finished: false,
                },
                failure: String::new(),
            },
            GuestMessage::Started { pid },
        )
    }

    /// Takes note of an event, and says what to do about it.
    pub fn step(&mut self, e: SessionEvent) -> (r: SessionStep)
        ensures
            final(self).state == session_next(old(self).state, e),
            r == session_step(old(self).state, e),
            match e {
                SessionEvent::Input { empty } => {
                    &&& r == SessionStep::Feed <==> old(self).state.listening && old(self).state.stdin_open && !empty
                    &&& r == SessionStep::CloseStdin <==> old(self).state.listening && old(self).state.stdin_open && empty
                    &&& final(self).state.stdin_open == (old(self).state.stdin_open && r
                        != SessionStep::CloseStdin)
                    &&& final(self).state.exit == old(self).state.exit
                    &&& final(self).state.timed_out == old(self).state.timed_out
                },
                SessionEvent::StdinBroken => !final(self).state.stdin_open && final(self).state.exit == old(self).state.exit && (r == SessionStep::CloseStdin <==> old(self).state.stdin_open),
                SessionEvent::Deadline => {
                    &&& r == SessionStep::Kill <==> old(self).state.exit is None
                    &&& old(self).state.exit is None ==> final(self).state.timed_out
                    &&& old(self).state.exit is Some ==> final(self).state.timed_out == old(self).state.timed_out
                    &&& final(self).state.exit == old(self).state.exit
                },
                SessionEvent::Exited(info) => final(self).state.exit == (match old(self).state.exit {
                    Some(i) => Some(i),
                    None => Some(info),
                }) && final(self).state.timed_out == old(self).state.timed_out,
                SessionEvent::Drained => (r == SessionStep::Finish <==> old(self).state.exit is Some
                    && !old(self).state.finished) && final(self).state.exit == old(self).state.exit && final(self).state.timed_out == old(self).state.timed_out,
                _ => (r == SessionStep::Kill <==> old(self).state.listening && old(self).state.exit is None) && !final(self).state.listening && final(self).state.exit
                    == old(self).state.exit && final(self).state.timed_out == old(self).state.timed_out,
            },
            match e {
                SessionEvent::Garbled(m) if !old(self).state.garbled && final(self).state.garbled =>
                final(self).failure@ == m@,
                _ => final(self).failure@ == old(self).failure@,
            },
    {
        let s: SessionState = self.state;
        match e {
            SessionEvent::Input { empty } => {
                if !s.listening || !s.stdin_open {
                    SessionStep::Nothing
                } else if empty {
                    self.state.stdin_open = false;
                    SessionStep::CloseStdin
                } else {
                    SessionStep::Feed
                }
            },
            SessionEvent::Unexpected => self.stop_listening(),
            SessionEvent::Closed => self.stop_listening(),
            SessionEvent::Lost => self.stop_listening(),
            SessionEvent::Garbled(m) => {
                if s.listening && s.exit.is_none() && !s.garbled {
                    self.state.garbled = true;
                    self.failure = m;
                }
                self.stop_listening()
            },
            SessionEvent::StdinBroken => {
                self.state.stdin_open = false;
                if s.stdin_open {
                    SessionStep::CloseStdin
                } else {
                    SessionStep::Nothing
                }
            },
            SessionEvent::Deadline => {
                if s.exit.is_none() {
                    self.state.timed_out = true;
                    SessionStep::Kill
                } else {
                    SessionStep::Nothing
                }
            },
            SessionEvent::Exited(info) => {
                if s.exit.is_none() {
                    self.state.exit = Some(info);
                }
                SessionStep::Nothing
            },
            SessionEvent::Drained => {
                if s.exit.is_some() && !s.finished {
                    self.state.finished = true;
                    SessionStep::Finish
                } else {
                    SessionStep::Nothing
                }
            },
        }
    }

    fn stop_listening(&mut self) -> (r: SessionStep)
        ensures
            final(self).state == (SessionState { listening: false, ..old(self).state }),
            final(self).failure@ == old(self).failure@,
            r == (if old(self).state.listening && old(self).state.exit is None {
                SessionStep::Kill
            } else {
                SessionStep::Nothing
            }),
    {
        let kill: bool = self.state.listening && self.state.exit.is_none();
        self.state.listening = false;
        if kill {
            SessionStep::Kill
        } else {
            SessionStep::Nothing
        }
    }

    /// The last message: a missed deadline, a protocol violation, or else how
    /// the command ended.
    pub fn terminal(&self) -> (r: GuestMessage)
        requires
            self.state.exit is Some,
        ensures
            r.terminal(),
            if self.state.timed_out {
                r.is_error("timeout"@, "deadline exceeded; process group killed"@)
            } else if self.state.garbled {
                r.is_error("protocol"@, self.failure@)
            } else {
                r == (GuestMessage::Exit {
                    code: self.state.exit->0.code,
                    signal: self.state.exit->0.signal,
                })
            },
    {
        if self.state.timed_out {
            return GuestMessage::Error {
                kind: copied(TIMEOUT),
                message: copied("deadline exceeded; process group killed"),
            };
        }
        if self.state.garbled {
            return protocol_error(self.failure.as_str());
        }
        match self.state.exit {
            Some(i) => GuestMessage::Exit { code: i.code, signal: i.signal },
            None => GuestMessage::Exit { code: None, signal: None },
        }
    }
}

/// The state after a run of events.
pub open spec fn session_after(s: SessionState, events: Seq<SessionEvent>) -> SessionState
    decreases events.len(),
{
    if events.len() == 0 {
        s
    } else {
        session_next(session_after(s, events.drop_last()), events.last())
    }
}

/// What the event at position `i` of a run called for.
pub open spec fn step_at(s: SessionState, events: Seq<SessionEvent>, i: int) -> SessionStep {
    session_step(session_after(s, events.take(i)), events[i])
}

proof fn lemma_session_grows(s: SessionState, events: Seq<SessionEvent>, i: int, j: int)
    requires
        0 <= i <= j <= events.len(),
    ensures
        ({
            let a = session_after(s, events.take(i));
            let b = session_after(s, events.take(j));
            &&& a.exit is Some ==> b.exit == a.exit
            &&& a.finished ==> b.finished
            &&& a.timed_out ==> b.timed_out
            &&& !a.listening ==> !b.listening
            &&& a.exit is Some && !a.timed_out ==> !b.timed_out
        }),
    decreases j - i,
{
    if i < j {
        lemma_session_grows(s, events, i, j - 1);
        assert(events.take(j).drop_last() =~= events.take(j - 1));
    }
}

/// In whatever order things happen to an exec, its last message is sent at
/// most once, and only after the command ended.
pub proof fn law_one_terminal_frame(stdin: bool, events: Seq<SessionEvent>, i: int, j: int)
    requires
        0 <= i < events.len(),
        0 <= j < events.len(),
        step_at(started(stdin), events, i) == SessionStep::Finish,
        step_at(started(stdin), events, j) == SessionStep::Finish,
    ensures
        i == j,
        session_after(started(stdin), events.take(i)).exit is Some,
{
    let s = started(stdin);
    if i < j {
        assert(events.take(i + 1).drop_last() =~= events.take(i));
        lemma_session_grows(s, events, i + 1, j);
    }
    if j < i {
        assert(events.take(j + 1).drop_last() =~= events.take(j));
        lemma_session_grows(s, events, j + 1, i);
    }
}

/// Once the command has ended, its process group is never killed: its number
/// may belong to something else by then.
pub proof fn law_no_kill_after_exit(s: SessionState, events: Seq<SessionEvent>, i: int, j: int)
    requires
        0 <= i < j < events.len(),
        events[i] is Exited,
    ensures
        step_at(s, events, j) != SessionStep::Kill,
{
    assert(events.take(i + 1).drop_last() =~= events.take(i));
    lemma_session_grows(s, events, i + 1, j);
}

/// Once the command has ended and its output is sent, the last message has
/// been sent.
pub proof fn law_exit_is_answered(s: SessionState, events: Seq<SessionEvent>, i: int, j: int)
    requires
        0 <= i < j < events.len(),
        events[i] is Exited,
        events[j] is Drained,
    ensures
        session_after(s, events.take(j + 1)).finished,
{
    assert(events.take(i + 1).drop_last() =~= events.take(i));
    lemma_session_grows(s, events, i + 1, j);
    assert(events.take(j + 1).drop_last() =~= events.take(j));
}

/// A deadline that passes while the command runs kills it, and is what the
/// last message reports; one that passes later changes nothing.
pub proof fn law_deadline(s: SessionState, events: Seq<SessionEvent>, i: int)
    requires
        0 <= i < events.len(),
        events[i] is Deadline,
    ensures
        session_after(s, events.take(i)).exit is None ==> step_at(s, events, i) == SessionStep::Kill
            && session_after(s, events).timed_out,
        session_after(s, events.take(i)).exit is Some ==> session_after(s, events.take(i + 1))
            == session_after(s, events.take(i)),
{
    assert(events.take(i + 1).drop_last() =~= events.take(i));
    lemma_session_grows(s, events, i + 1, events.len() as int);
    assert(events.take(events.len() as int) =~= events);
}

/// The host closing the connection before the command ended cancels it.
pub proof fn law_close_cancels(s: SessionState, e: SessionEvent)
    requires
        s.listening,
        s.exit is None,
        e is Closed || e is Lost || e is Unexpected || e is Garbled,
    ensures
        session_step(s, e) == SessionStep::Kill,
        !session_next(s, e).listening,
{
}

// --- output ------------------------------------------------------------------

/// The message for what was read from one of the command's pipes; at its end
/// there is none.
pub fn chunk(data: Vec<u8>, is_stdout: bool) -> (r: Option<GuestMessage>)
    requires
        data@.len() <= MAX_CHUNK_LEN,
    ensures
        if data@.len() == 0 {
            r is None
        } else if is_stdout {
            r == Some(GuestMessage::Stdout { data })
        } else {
            r == Some(GuestMessage::Stderr { data })
        },
{
    if data.len() == 0 {
        None
    } else if is_stdout {
        Some(GuestMessage::Stdout { data })
    } else {
        Some(GuestMessage::Stderr { data })
    }
}

// --- reaping -----------------------------------------------------------------

/// What waiting for a child came to.
#[derive(Debug, Clone, Copy, PartialEq, Eq, Structural)]
pub enum WaitOutcome {
    Exited { pid: i32, code: i32 },
    Signaled { pid: i32, signal: i32 },
    /// A child changed state otherwise.
    Other,
    /// A signal interrupted the wait.
    Interrupted,
    /// There is no child, or the wait failed.
    Failed,
}

/// What to do about it.
#[derive(Debug, Clone, Copy, PartialEq, Eq, Structural)]
pub enum Reap {
    /// Hand the status on.
    Route { pid: i32, info: ExitInfo },
    /// Wait again at once.
    Again,
    /// Wait again after a pause.
    Pause,
}

/// How long the pause is, in milliseconds.
pub const REAP_PAUSE_MS: u64 = 50;

/// What to do about the outcome of a wait.
pub fn reap(w: WaitOutcome) -> (r: Reap)
    ensures
        r == match w {
            WaitOutcome::Exited { pid, code } => Reap::Route {
                pid,
                info: ExitInfo { code: Some(code), signal: None },
            },
            WaitOutcome::Signaled { pid, signal } => Reap::Route {
                pid,
                info: ExitInfo { code: None, signal: Some(signal) },
            },
            WaitOutcome::Other | WaitOutcome::Interrupted => Reap::Again,
            WaitOutcome::Failed => Reap::Pause,
        },
{
    match w {
        WaitOutcome::Exited { pid, code } => Reap::Route {
            pid,
            info: ExitInfo { code: Some(code), signal: None },
        },
        WaitOutcome::Signaled { pid, signal } => Reap::Route {
            pid,
            info: ExitInfo { code: None, signal: Some(signal) },
        },
        WaitOutcome::Other => Reap::Again,
        WaitOutcome::Interrupted => Reap::Again,
        WaitOutcome::Failed => Reap::Pause,
    }
}

/// Hands exit statuses to those who wait for them. A status that comes before
/// anybody waits for it is kept.
pub struct Router<T> {
    waiters: HashMap<i32, T>,
    orphans: HashMap<i32, ExitInfo>,
}

/// Who waits for which process, and which statuses nobody asked for yet.
pub struct Routes<T> {
    pub waiters: Map<i32, T>,
    pub orphans: Map<i32, ExitInfo>,
}

impl<T> View for Router<T> {
    type V = Routes<T>;

    closed spec fn view(&self) -> Routes<T> {
        Routes { waiters: self.waiters@, orphans: self.orphans@ }
    }
}

/// The routes after a status arrived.
pub open spec fn routed<T>(r: Routes<T>, pid: i32, info: ExitInfo) -> Routes<T> {
    if r.waiters.dom().contains(pid) {
        Routes { waiters: r.waiters.remove(pid), orphans: r.orphans }
    } else {
        Routes { waiters: r.waiters, orphans: r.orphans.insert(pid, info) }
    }
}

/// The routes after somebody started to wait.
pub open spec fn awaited<T>(r: Routes<T>, pid: i32, waiter: T) -> Routes<T> {
    if r.orphans.dom().contains(pid) {
        Routes { waiters: r.waiters, orphans: r.orphans.remove(pid) }
    } else {
        Routes { waiters: r.waiters.insert(pid, waiter), orphans: r.orphans }
    }
}

impl<T> Router<T> {
    /// A router that knows of nothing.
    pub fn router() -> (r: Router<T>)
        ensures
            r@.waiters == Map::<i32, T>::empty(),
            r@.orphans == Map::<i32, ExitInfo>::empty(),
    {
        broadcast use vstd::std_specs::hash::group_hash_axioms;

        Router { waiters: HashMap::new(), orphans: HashMap::new() }
    }

    /// Routes the exit status of `pid`: to whoever waits for it, who is
    /// returned; else it is kept.
    pub fn route(&mut self, pid: i32, info: ExitInfo) -> (r: Option<T>)
        ensures
            final(self)@ == routed(old(self)@, pid, info),
            old(self)@.waiters.dom().contains(pid) ==> final(self)@.waiters == old(self)@.waiters.remove(pid)
                && final(self)@.orphans == old(self)@.orphans,
            !old(self)@.waiters.dom().contains(pid) ==> final(self)@.waiters == old(self)@.waiters
                && final(self)@.orphans == old(self)@.orphans.insert(pid, info),
            r == (if old(self)@.waiters.dom().contains(pid) {
                Some(old(self)@.waiters[pid])
            } else {
                None
            }),
    {
        broadcast use vstd::std_specs::hash::group_hash_axioms;

        match self.waiters.remove(&pid) {
            Some(t) => Some(t),
            None => {
                assert(self.waiters@ =~= old(self).waiters@);
                self.orphans.insert(pid, info);
                None
            },
        }
    }

    /// Waits for the exit status of `pid`: where it is known it is returned,
    /// else `waiter` will get it.
    pub fn wait_child(&mut self, pid: i32, waiter: T) -> (r: Option<ExitInfo>)
        ensures
            final(self)@ == awaited(old(self)@, pid, waiter),
            old(self)@.orphans.dom().contains(pid) ==> final(self)@.orphans == old(self)@.orphans.remove(pid)
                && final(self)@.waiters == old(self)@.waiters,
            !old(self)@.orphans.dom().contains(pid) ==> final(self)@.orphans == old(self)@.orphans
                && final(self)@.waiters == old(self)@.waiters.insert(pid, waiter),
            r == (if old(self)@.orphans.dom().contains(pid) {
                Some(old(self)@.orphans[pid])
            } else {
                None
            }),
    {
        broadcast use vstd::std_specs::hash::group_hash_axioms;

        match self.orphans.remove(&pid) {
            Some(info) => Some(info),
            None => {
                assert(self.orphans@ =~= old(self).orphans@);
                self.waiters.insert(pid, waiter);
                None
            },
        }
    }
}

/// Nobody waits for a status that is known.
pub open spec fn routes_wf<T>(r: Routes<T>) -> bool {
    forall|pid: i32| !(#[trigger] r.waiters.dom().contains(pid) && r.orphans.dom().contains(pid))
}

/// Whether the status comes first or the waiter, the waiter gets the status,
/// and afterwards the process is unknown again: the status is delivered
/// exactly once. Other processes are not affected.
pub proof fn law_status_is_delivered_once<T>(r: Routes<T>, pid: i32, info: ExitInfo, waiter: T)
    requires
        routes_wf(r),
        !r.waiters.dom().contains(pid),
        !r.orphans.dom().contains(pid),
    ensures
        routed(r, pid, info).orphans[pid] == info,
        awaited(routed(r, pid, info), pid, waiter) == r,
        awaited(r, pid, waiter).waiters[pid] == waiter,
        routed(awaited(r, pid, waiter), pid, info) == r,
        routes_wf(routed(r, pid, info)),
        routes_wf(awaited(r, pid, waiter)),
{
    assert(awaited(routed(r, pid, info), pid, waiter).orphans =~= r.orphans);
    assert(routed(awaited(r, pid, waiter), pid, info).waiters =~= r.waiters);
}

} // verus!
