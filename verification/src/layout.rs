//! Where things live in the state directory.

use vstd::prelude::*;

use crate::paths;
use crate::paths::join;
use crate::types::{SandboxId, SnapshotId};

verus! {

/// Path (inside the sandbox) where the host-visible runtime dir is bound.
pub const INSIDE_RT_DIR: &'static str = "/run/draug";

/// Socket file name within the runtime dir, both views.
pub const SOCKET_NAME: &'static str = "guest.sock";

/// Guest log file name within the runtime dir, both views.
pub const LOG_NAME: &'static str = "guest.log";

/// Name of the backend, recorded with every sandbox.
pub const BACKEND_NAME: &'static str = "ns";

/// The state directory of a sandbox.
pub fn state_dir(state_root: &str, id: &SandboxId) -> (r: String)
    ensures
        r@ == paths::under(state_root@, id.0@),
{
    join(state_root, id.0.as_str())
}

/// The directory of a snapshot.
pub fn snapshot_dir(state_root: &str, id: &SnapshotId) -> (r: String)
    ensures
        r@ == paths::under(paths::under(state_root@, "snapshots"@), id.0@),
{
    join(join(state_root, "snapshots").as_str(), id.0.as_str())
}

/// The file whose lock serializes operations on a sandbox.
pub fn op_lock_path(state_dir: &str) -> (r: String)
    ensures
        r@ == paths::under(state_dir@, "op.lock"@),
{
    join(state_dir, "op.lock")
}

/// The socket of a sandbox's guest, as the host sees it.
pub open spec fn guest_socket(state_dir: Seq<char>) -> Seq<char> {
    paths::under(paths::under(state_dir, "rt"@), SOCKET_NAME@)
}

/// The socket of a sandbox's guest, as the host sees it.
pub fn socket_path(state_dir: &str) -> (r: String)
    ensures
        r@ == guest_socket(state_dir@),
        r@ == paths::under(paths::under(state_dir@, "rt"@), "guest.sock"@),
{
    join(join(state_dir, "rt").as_str(), SOCKET_NAME)
}

/// The writable layer of a sandbox, or the captured one of a snapshot.
pub fn upper_dir(dir: &str) -> (r: String)
    ensures
        r@ == paths::under(dir@, "upper"@),
{
    join(dir, "upper")
}

/// The file that records the guest's process.
pub fn pid_file(state_dir: &str) -> (r: String)
    ensures
        r@ == paths::under(state_dir@, "guest.pid"@),
{
    join(state_dir, "guest.pid")
}

/// The file that records the sandbox's cgroup.
pub fn cgroup_file(state_dir: &str) -> (r: String)
    ensures
        r@ == paths::under(state_dir@, "cgroup.path"@),
{
    join(state_dir, "cgroup.path")
}

} // verus!
