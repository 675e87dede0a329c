//! Identifiers, the sandbox specification, and what the registry records.

use vstd::prelude::*;

use crate::limits::ResourceLimits;
use crate::text::{copied, same};

verus! {

/// Opaque sandbox identifier (short random id; also the state dir name).
#[derive(Debug, Clone, PartialEq, Eq, Hash)]
pub struct SandboxId(pub String);

impl SandboxId {
    /// A copy of this id.
    pub fn duplicate(&self) -> (r: SandboxId)
        ensures
            r == *self,
    {
        SandboxId(self.0.clone())
    }
}

impl From<&str> for SandboxId {
    fn from(s: &str) -> (r: SandboxId)
        ensures
            r.0@ == s@,
    {
        SandboxId(copied(s))
    }
}

impl vstd::std_specs::convert::FromSpecImpl<&str> for SandboxId {
    open spec fn obeys_from_spec() -> bool {
        false
    }

    open spec fn from_spec(s: &str) -> SandboxId {
        arbitrary()
    }
}

/// Opaque snapshot identifier.
#[derive(Debug, Clone, PartialEq, Eq, Hash)]
pub struct SnapshotId(pub String);

impl SnapshotId {
    /// A copy of this id.
    pub fn duplicate(&self) -> (r: SnapshotId)
        ensures
            r == *self,
    {
        SnapshotId(self.0.clone())
    }
}

impl From<&str> for SnapshotId {
    fn from(s: &str) -> (r: SnapshotId)
        ensures
            r.0@ == s@,
    {
        SnapshotId(copied(s))
    }
}

impl vstd::std_specs::convert::FromSpecImpl<&str> for SnapshotId {
    open spec fn obeys_from_spec() -> bool {
        false
    }

    open spec fn from_spec(s: &str) -> SnapshotId {
        arbitrary()
    }
}

/// Lifecycle state of a sandbox, persisted in the registry.
///
/// Destroying a sandbox removes its row; there is no state for it.
#[derive(Debug, Clone, Copy, PartialEq, Eq, Structural)]
pub enum SandboxState {
    /// Row exists, kernel state may be partial.
    Creating,
    /// Fully set up, no exec in flight.
    Ready,
    /// At least one exec in flight.
    Running,
    /// Processes gone, filesystem retained.
    Stopped,
}

impl SandboxState {
    /// The word that the registry stores for this state.
    pub open spec fn word(self) -> Seq<char> {
        match self {
            SandboxState::Creating => "creating"@,
            SandboxState::Ready => "ready"@,
            SandboxState::Running => "running"@,
            SandboxState::Stopped => "stopped"@,
        }
    }

    /// The state that the registry stores as `s`, if any.
    pub open spec fn of_word(s: Seq<char>) -> Option<SandboxState> {
        if s == "creating"@ {
            Some(SandboxState::Creating)
        } else if s == "ready"@ {
            Some(SandboxState::Ready)
        } else if s == "running"@ {
            Some(SandboxState::Running)
        } else if s == "stopped"@ {
            Some(SandboxState::Stopped)
        } else {
            None
        }
    }

    /// The name of this state in messages.
    pub open spec fn name(self) -> Seq<char> {
        match self {
            SandboxState::Creating => "Creating"@,
            SandboxState::Ready => "Ready"@,
            SandboxState::Running => "Running"@,
            SandboxState::Stopped => "Stopped"@,
        }
    }

    /// The word that the registry stores for this state.
    pub fn as_str(&self) -> (r: &'static str)
        ensures
            r@ == self.word(),
            r@ == match *self {
                SandboxState::Creating => "creating"@,
                SandboxState::Ready => "ready"@,
                SandboxState::Running => "running"@,
                SandboxState::Stopped => "stopped"@,
            },
    {
        match self {
            SandboxState::Creating => "creating",
            SandboxState::Ready => "ready",
            SandboxState::Running => "running",
            SandboxState::Stopped => "stopped",
        }
    }

    /// The state that the registry stores as `s`, if any.
    pub fn parse(s: &str) -> (r: Option<SandboxState>)
        ensures
            r == SandboxState::of_word(s@),
            s@ == "creating"@ ==> r == Some(SandboxState::Creating),
            s@ == "ready"@ ==> r == Some(SandboxState::Ready),
            s@ == "running"@ ==> r == Some(SandboxState::Running),
            s@ == "stopped"@ ==> r == Some(SandboxState::Stopped),
            r is None <==> s@ != "creating"@ && s@ != "ready"@ && s@ != "running"@ && s@
                != "stopped"@,
    {
        proof {
            law_state_roundtrip(SandboxState::Creating, SandboxState::Ready);
            law_state_roundtrip(SandboxState::Ready, SandboxState::Running);
            law_state_roundtrip(SandboxState::Running, SandboxState::Stopped);
            law_state_roundtrip(SandboxState::Stopped, SandboxState::Creating);
        }
        if same(s, "creating") {
            Some(SandboxState::Creating)
        } else if same(s, "ready") {
            Some(SandboxState::Ready)
        } else if same(s, "running") {
            Some(SandboxState::Running)
        } else if same(s, "stopped") {
            Some(SandboxState::Stopped)
        } else {
            None
        }
    }

    /// The name of this state in messages.
    pub fn variant(&self) -> (r: &'static str)
        ensures
            r@ == self.name(),
            r@ == match *self {
                SandboxState::Creating => "Creating"@,
                SandboxState::Ready => "Ready"@,
                SandboxState::Running => "Running"@,
                SandboxState::Stopped => "Stopped"@,
            },
    {
        match self {
            SandboxState::Creating => "Creating",
            SandboxState::Ready => "Ready",
            SandboxState::Running => "Running",
            SandboxState::Stopped => "Stopped",
        }
    }
}

/// Every state is read back from the word that it is stored as, and from no
/// other state's word.
pub proof fn law_state_roundtrip(a: SandboxState, b: SandboxState)
    ensures
        SandboxState::of_word(a.word()) == Some(a),
        a.word() == b.word() ==> a == b,
{
    reveal_strlit("creating");
    reveal_strlit("ready");
    reveal_strlit("running");
    reveal_strlit("stopped");
    assert("creating"@[0] != "ready"@[0]);
    assert("creating"@[0] != "running"@[0]);
    assert("creating"@[0] != "stopped"@[0]);
    assert("ready"@.len() != "running"@.len());
    assert("ready"@.len() != "stopped"@.len());
    assert("running"@[0] != "stopped"@[0]);
}

/// Everything needed to create a sandbox.
#[derive(Debug, Clone)]
pub struct SandboxSpec {
    /// Optional human-readable name (unique across live sandboxes).
    pub name: Option<String>,
    /// Read-only base image directory (overlayfs lowerdir).
    pub rootfs: String,
    /// Seed the writable layer from an existing snapshot instead of empty.
    pub from_snapshot: Option<SnapshotId>,
    /// Resource limits; `ResourceLimits::unlimited()` for none.
    pub limits: ResourceLimits,
    /// Environment variables set for every exec in this sandbox.
    pub env: Vec<(String, String)>,
    /// Whether the sandbox keeps the host network.
    pub network: bool,
    /// Whether the host's `/proc` may stand in for a private one.
    pub allow_host_proc_fallback: bool,
}

/// A live sandbox as recorded in the registry.
#[derive(Debug, Clone, PartialEq, Eq)]
pub struct Sandbox {
    pub id: SandboxId,
    pub name: Option<String>,
    pub state: SandboxState,
    /// Which backend owns this sandbox (e.g. "ns").
    pub backend: String,
    /// Base image path (overlayfs lowerdir).
    pub rootfs: String,
    /// Directory holding the layers and the guest socket.
    pub state_dir: String,
    pub limits: ResourceLimits,
    /// Unix timestamp (seconds).
    pub created_at: i64,
}

/// What a `Sandbox` says, over mathematical values.
pub struct SandboxFacts {
    pub id: Seq<char>,
    pub name: Option<Seq<char>>,
    pub state: SandboxState,
    pub backend: Seq<char>,
    pub rootfs: Seq<char>,
    pub state_dir: Seq<char>,
    pub limits: ResourceLimits,
    pub created_at: int,
}

impl View for Sandbox {
    type V = SandboxFacts;

    open spec fn view(&self) -> SandboxFacts {
        SandboxFacts {
            id: self.id.0@,
            name: crate::text::opt_view(self.name),
            state: self.state,
            backend: self.backend@,
            rootfs: self.rootfs@,
            state_dir: self.state_dir@,
            limits: self.limits,
            created_at: self.created_at as int,
        }
    }
}

/// Snapshot metadata as recorded in the registry.
#[derive(Debug, Clone, PartialEq, Eq)]
pub struct SnapshotMeta {
    pub id: SnapshotId,
    /// Sandbox this was taken from; `None` if that sandbox was destroyed.
    pub sandbox_id: Option<SandboxId>,
    pub name: String,
    /// Directory holding the captured upper layer.
    pub path: String,
    /// Base image that the layer was captured over.
    pub rootfs: String,
    /// Bytes of regular files in the captured layer.
    pub size_bytes: u64,
    /// Unix timestamp (seconds).
    pub created_at: i64,
}

/// What a `SnapshotMeta` says, over mathematical values.
pub struct SnapshotFacts {
    pub id: Seq<char>,
    pub sandbox_id: Option<Seq<char>>,
    pub name: Seq<char>,
    pub path: Seq<char>,
    pub rootfs: Seq<char>,
    pub size_bytes: int,
    pub created_at: int,
}

impl View for SnapshotMeta {
    type V = SnapshotFacts;

    open spec fn view(&self) -> SnapshotFacts {
        SnapshotFacts {
            id: self.id.0@,
            sandbox_id: match self.sandbox_id {
                Some(s) => Some(s.0@),
                None => None,
            },
            name: self.name@,
            path: self.path@,
            rootfs: self.rootfs@,
            size_bytes: self.size_bytes as int,
            created_at: self.created_at as int,
        }
    }
}

/// What is said of a sandbox or a snapshot is what its fields hold.
pub proof fn law_facts_are_the_fields(sb: Sandbox, snap: SnapshotMeta)
    ensures
        sb@.id == sb.id.0@,
        sb.name is None ==> sb@.name is None,
        sb.name matches Some(n) ==> sb@.name == Some(n@),
        sb@.state == sb.state,
        sb@.backend == sb.backend@,
        sb@.rootfs == sb.rootfs@,
        sb@.state_dir == sb.state_dir@,
        sb@.limits == sb.limits,
        sb@.created_at == sb.created_at,
        snap@.id == snap.id.0@,
        snap.sandbox_id is None ==> snap@.sandbox_id is None,
        snap.sandbox_id matches Some(s) ==> snap@.sandbox_id == Some(s.0@),
        snap@.name == snap.name@,
        snap@.path == snap.path@,
        snap@.rootfs == snap.rootfs@,
        snap@.size_bytes == snap.size_bytes,
        snap@.created_at == snap.created_at,
{
}

/// How a path differs from the base image.
#[derive(Debug, Clone, Copy, PartialEq, Eq, Structural)]
pub enum DiffKind {
    Added,
    Modified,
    Deleted,
}

/// One changed path of a layer.
#[derive(Debug, Clone, PartialEq, Eq)]
pub struct DiffEntry {
    /// Path relative to the base image's root.
    pub path: String,
    pub kind: DiffKind,
    /// Size in bytes; `None` for a directory.
    pub size: Option<u64>,
    /// File mode in octal.
    pub mode: Option<String>,
}

} // verus!
