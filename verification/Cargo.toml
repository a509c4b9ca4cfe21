[package]
name = "cargo_rpmstatus"
version = "0.1.0"
edition = "2021"
publish = false

[dependencies]
anyhow = "*"
bzip2 = "*"
cargo_metadata = "*"
clap = { version = "*", features = ["derive"] }
clap_mangen = "*"
crossbeam-channel = "*"
dirs = "*"
env_logger = "*"
indicatif = "*"
log = "*"
quick-xml = { version = "*", features = ["serialize"] }
rusqlite = { version = "*", features = ["bundled"] }
semver = "*"
serde = { version = "*", features = ["derive"] }
serde_json = "*"
ureq = "*"
