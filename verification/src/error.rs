//! The error taxonomy. Variants are chosen by what the caller should do about
//! the failure: fix the input, retry, destroy the sandbox.

use vstd::prelude::*;

use crate::text::copied;
use crate::types::SandboxState;

verus! {

/// What kind of resource an id refers to.
#[derive(Debug, Clone, Copy, PartialEq, Eq, Structural)]
pub enum ResourceKind {
    Sandbox,
    Snapshot,
}

impl ResourceKind {
    /// The word for this kind of resource.
    pub open spec fn word(self) -> Seq<char> {
        match self {
            ResourceKind::Sandbox => "sandbox"@,
            ResourceKind::Snapshot => "snapshot"@,
        }
    }

    /// The word for this kind of resource.
    pub fn as_str(&self) -> (r: &'static str)
        ensures
            r@ == self.word(),
            *self == ResourceKind::Sandbox ==> r@ == "sandbox"@,
            *self == ResourceKind::Snapshot ==> r@ == "snapshot"@,
    {
        match self {
            ResourceKind::Sandbox => "sandbox",
            ResourceKind::Snapshot => "snapshot",
        }
    }
}

/// Exec-level failure classes reported by the guest agent.
#[derive(Debug, Clone, Copy, PartialEq, Eq, Structural)]
pub enum ExecErrorKind {
    /// The guest could not spawn the requested program.
    SpawnFailed,
    /// The deadline elapsed; the guest killed the process group.
    Timeout,
    /// The exec was cancelled host-side.
    Cancelled,
}

impl ExecErrorKind {
    /// The word for this class of failure.
    pub open spec fn word(self) -> Seq<char> {
        match self {
            ExecErrorKind::SpawnFailed => "spawn-failed"@,
            ExecErrorKind::Timeout => "timeout"@,
            ExecErrorKind::Cancelled => "cancelled"@,
        }
    }

    /// The word for this class of failure.
    pub fn as_str(&self) -> (r: &'static str)
        ensures
            r@ == self.word(),
            *self == ExecErrorKind::SpawnFailed ==> r@ == "spawn-failed"@,
            *self == ExecErrorKind::Timeout ==> r@ == "timeout"@,
            *self == ExecErrorKind::Cancelled ==> r@ == "cancelled"@,
    {
        match self {
            ExecErrorKind::SpawnFailed => "spawn-failed",
            ExecErrorKind::Timeout => "timeout",
            ExecErrorKind::Cancelled => "cancelled",
        }
    }
}

/// The classes of operating-system failure that decisions depend on.
#[derive(Debug, Clone, Copy, PartialEq, Eq, Structural)]
pub enum IoKind {
    NotFound,
    AlreadyExists,
    PermissionDenied,
    InvalidData,
    Other,
}

/// What the operating system reported: its class and its text.
#[derive(Debug, Clone, PartialEq, Eq)]
pub struct IoFailure {
    pub kind: IoKind,
    pub message: String,
}

impl IoFailure {
    /// A failure of no particular class.
    pub fn other(message: &str) -> (r: IoFailure)
        ensures
            r.kind == IoKind::Other,
            r.message@ == message@,
    {
        IoFailure { kind: IoKind::Other, message: copied(message) }
    }

    /// A copy of this failure.
    pub fn duplicate(&self) -> (r: IoFailure)
        ensures
            r == *self,
    {
        IoFailure { kind: self.kind, message: self.message.clone() }
    }
}

/// What the registry database reported.
#[derive(Debug, Clone, PartialEq, Eq)]
pub struct SqlFailure {
    /// Whether a table constraint was violated.
    pub constraint: bool,
    /// Whether that was a reference to a row that is not there.
    pub dangling: bool,
    pub message: String,
}

impl SqlFailure {
    /// A failure that has nothing to do with constraints.
    pub fn plain(message: String) -> (r: SqlFailure)
        ensures
            r == (SqlFailure { constraint: false, dangling: false, message }),
    {
        SqlFailure { constraint: false, dangling: false, message }
    }
}

/// Everything that can go wrong.
#[derive(Debug, Clone, PartialEq, Eq)]
pub enum Error {
    /// Sandbox or snapshot id doesn't exist. Caller bug or stale handle.
    NotFound { kind: ResourceKind, id: String },
    /// Name or id collision on create.
    AlreadyExists { kind: ResourceKind, id: String },
    /// Spec rejected before touching the kernel. Fix the input.
    InvalidSpec(String),
    /// Operation not valid for the sandbox's current state.
    WrongState { id: String, state: SandboxState, op: &'static str },
    /// Host lacks a required kernel facility. Not retryable.
    Unsupported(String),
    /// Guest agent protocol violation. Destroy and respawn.
    Protocol(String),
    /// The protocol worked but the exec itself failed. A nonzero exit code is
    /// not an error.
    Exec { kind: ExecErrorKind, message: String },
    /// Registry (SQLite) failure.
    Registry(SqlFailure),
    /// OS-level failure, labelled with the operation that hit it.
    Io { op: &'static str, source: IoFailure },
}

impl Error {
    /// Labels an operating-system failure with the operation that hit it.
    pub fn io(op: &'static str, source: IoFailure) -> (r: Error)
        ensures
            r == (Error::Io { op, source }),
    {
        Error::Io { op, source }
    }

    /// An operation's failure of no particular class.
    pub fn io_other(op: &'static str, message: &str) -> (r: Error)
        ensures
            r.is_io_other(op@, message@),
    {
        Error::Io { op, source: IoFailure::other(message) }
    }

    /// This is the operation `op` failing with `source`.
    pub open spec fn is_io(self, op: Seq<char>, source: IoFailure) -> bool {
        self matches Error::Io { op: o, source: s } && o@ == op && s == source
    }

    /// This is the operation `op` failing with `message` and no further class.
    pub open spec fn is_io_other(self, op: Seq<char>, message: Seq<char>) -> bool {
        self matches Error::Io { op: o, source } && o@ == op && source.kind == IoKind::Other
            && source.message@ == message
    }

    /// This says that the resource `id` does not exist.
    pub open spec fn is_not_found(self, kind: ResourceKind, id: Seq<char>) -> bool {
        self matches Error::NotFound { kind: k, id: i } && k == kind && i@ == id
    }

    /// This says that the resource `id` exists already.
    pub open spec fn is_already_exists(self, kind: ResourceKind, id: Seq<char>) -> bool {
        self matches Error::AlreadyExists { kind: k, id: i } && k == kind && i@ == id
    }

    /// This rejects a spec with `message`.
    pub open spec fn is_invalid_spec(self, message: Seq<char>) -> bool {
        self matches Error::InvalidSpec(m) && m@ == message
    }

    /// This says that the host lacks what `message` names.
    pub open spec fn is_unsupported(self, message: Seq<char>) -> bool {
        self matches Error::Unsupported(m) && m@ == message
    }

    /// This is a protocol violation described by `message`.
    pub open spec fn is_protocol(self, message: Seq<char>) -> bool {
        self matches Error::Protocol(m) && m@ == message
    }

    /// This refuses operation `op` on sandbox `id` because of its state.
    pub open spec fn is_wrong_state(
        self,
        id: Seq<char>,
        state: SandboxState,
        op: Seq<char>,
    ) -> bool {
        self matches Error::WrongState { id: i, state: s, op: o } && i@ == id && s == state && o@
            == op
    }

    /// The one-line message for this error.
    pub open spec fn text(self) -> Seq<char> {
        match self {
            Error::NotFound { kind, id } => kind.word() + " not found: "@ + id@,
            Error::AlreadyExists { kind, id } => kind.word() + " already exists: "@ + id@,
            Error::InvalidSpec(m) => "invalid spec: "@ + m@,
            Error::WrongState { id, state, op } => "cannot "@ + op@ + " sandbox "@ + id@
                + " in state "@ + state.name(),
            Error::Unsupported(m) => "unsupported on this host: "@ + m@,
            Error::Protocol(m) => "guest protocol error: "@ + m@,
            Error::Exec { kind, message } => "exec failed ("@ + kind.word() + "): "@ + message@,
            Error::Registry(f) => "registry error: "@ + f.message@,
            Error::Io { op, source } => "io error during "@ + op@ + ": "@ + source.message@,
        }
    }

    /// The one-line message for this error.
    pub fn message(&self) -> (r: String)
        ensures
            r@ == self.text(),
            match *self {
                Error::NotFound { kind, id } => r@ == kind.word() + " not found: "@ + id@,
                Error::AlreadyExists { kind, id } => r@ == kind.word() + " already exists: "@ + id@,
                Error::InvalidSpec(m) => r@ == "invalid spec: "@ + m@,
                Error::WrongState { id, state, op } => r@ == "cannot "@ + op@ + " sandbox "@ + id@
                    + " in state "@ + state.name(),
                Error::Unsupported(m) => r@ == "unsupported on this host: "@ + m@,
                Error::Protocol(m) => r@ == "guest protocol error: "@ + m@,
                Error::Exec { kind, message } => r@ == "exec failed ("@ + kind.word() + "): "@
                    + message@,
                Error::Registry(f) => r@ == "registry error: "@ + f.message@,
                Error::Io { op, source } => r@ == "io error during "@ + op@ + ": "@
                    + source.message@,
            },
    {
        match self {
            Error::NotFound { kind, id } => {
                let mut m: String = copied(kind.as_str());
                m.append(" not found: ");
                m.append(id.as_str());
                m
            },
            Error::AlreadyExists { kind, id } => {
                let mut m: String = copied(kind.as_str());
                m.append(" already exists: ");
                m.append(id.as_str());
                m
            },
            Error::InvalidSpec(t) => {
                let mut m: String = copied("invalid spec: ");
                m.append(t.as_str());
                m
            },
            Error::WrongState { id, state, op } => {
                let mut m: String = copied("cannot ");
                m.append(op);
                m.append(" sandbox ");
                m.append(id.as_str());
                m.append(" in state ");
                m.append(state.variant());
                m
            },
            Error::Unsupported(t) => {
                let mut m: String = copied("unsupported on this host: ");
                m.append(t.as_str());
                m
            },
            Error::Protocol(t) => {
                let mut m: String = copied("guest protocol error: ");
                m.append(t.as_str());
                m
            },
            Error::Exec { kind, message } => {
                let mut m: String = copied("exec failed (");
                m.append(kind.as_str());
                m.append("): ");
                m.append(message.as_str());
                m
            },
            Error::Registry(f) => {
                let mut m: String = copied("registry error: ");
                m.append(f.message.as_str());
                m
            },
            Error::Io { op, source } => {
                let mut m: String = copied("io error during ");
                m.append(op);
                m.append(": ");
                m.append(source.message.as_str());
                m
            },
        }
    }
}

/// An error's message tells everything that the error says: the operation, what
/// the system said, what was looked for, and why it was refused.
pub proof fn law_messages_tell_everything(
    e: Error,
    a: Seq<char>,
    b: Seq<char>,
    f: IoFailure,
    kind: ResourceKind,
    state: SandboxState,
)
    ensures
        e.is_io(a, f) ==> e.text() == "io error during "@ + a + ": "@ + f.message@,
        e.is_io_other(a, b) ==> e.text() == "io error during "@ + a + ": "@ + b,
        e.is_not_found(kind, a) ==> e.text() == kind.word() + " not found: "@ + a,
        e.is_already_exists(kind, a) ==> e.text() == kind.word() + " already exists: "@ + a,
        e.is_invalid_spec(a) ==> e.text() == "invalid spec: "@ + a,
        e.is_unsupported(a) ==> e.text() == "unsupported on this host: "@ + a,
        e.is_protocol(a) ==> e.text() == "guest protocol error: "@ + a,
        e.is_wrong_state(a, state, b) ==> e.text() == "cannot "@ + b + " sandbox "@ + a
            + " in state "@ + state.name(),
{
}

} // verus!
