//! Sandboxes for coding agents: the rules behind a local, daemon-free
//! sandbox manager.

pub mod cgroup;
pub mod cli;
pub mod diff;
pub mod error;
pub mod exec;
pub mod fscopy;
pub mod guest;
pub mod helpers;
pub mod json;
pub mod layout;
pub mod lifecycle;
pub mod limits;
pub mod lists;
pub mod mcp;
pub mod mounts;
pub mod output;
pub mod overlay;
pub mod paths;
pub mod procs;
pub mod proto;
pub mod registry;
pub mod setup;
pub mod snapshot;
pub mod spawn;
pub mod sql;
pub mod text;
pub mod types;
pub mod uidmap;
