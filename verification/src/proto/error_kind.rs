//! Well-known kinds of a guest's error message.

use vstd::prelude::*;

verus! {

pub const SPAWN_FAILED: &'static str = "spawn-failed";

pub const TIMEOUT: &'static str = "timeout";

pub const PROTOCOL: &'static str = "protocol";

} // verus!
