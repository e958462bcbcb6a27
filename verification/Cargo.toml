[package]
name = "libmarlin"
version = "0.1.0"
edition = "2021"
publish = false

[dependencies]
anyhow = "1"
chrono = "0.4"
clap = { version = "4", features = ["derive"] }
clap_complete = "4"
crossbeam-channel = "0.5"
directories = "5"
glob = "0.3"
nix = { version = "*", features = ["signal"] }
notify = "6"
once_cell = "1"
rusqlite = { version = "*", features = ["bundled", "backup"] }
same-file = "1"
serde = { version = "1", features = ["derive"] }
serde_json = "1"
shellexpand = "3"
shlex = "1"
tracing = "0.1"
tracing-subscriber = { version = "0.3", features = ["env-filter"] }
walkdir = "2"

[dev-dependencies]
tempfile = "3"
