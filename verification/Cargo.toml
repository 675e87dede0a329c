[package]
name = "draug"
version = "0.1.0"
edition = "2021"
publish = false

[dependencies]
async-trait = "*"
clap = { version = "*", features = ["derive"] }
libc = "0.2"
nix = { version = "*", features = ["fs", "hostname", "mount", "process", "sched", "signal", "user"] }
rmcp = { version = "*", features = ["server", "macros", "transport-io"] }
rmp-serde = "*"
rusqlite = { version = "*", features = ["bundled"] }
schemars = "*"
serde = { version = "*", features = ["derive"] }
serde_bytes = "*"
serde_json = "*"
thiserror = "*"
tokio = { version = "1", features = ["full"] }
