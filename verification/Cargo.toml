[package]
name = "exarare"
version = "0.1.0"
edition = "2021"
publish = false

[dependencies]
anyhow = "1"
blake3 = "1"
clap = { version = "4", features = ["derive"] }
globset = "0.4"
nix = { version = "0.29", features = ["hostname", "signal", "process"] }
notify = "8"
serde = { version = "1", features = ["derive"] }
serde_json = "1"
similar = "2"
time = { version = "0.3", features = ["serde", "formatting", "parsing", "macros"] }
walkdir = "2"

[dev-dependencies]
tempfile = "3"
