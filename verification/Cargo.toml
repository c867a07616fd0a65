[package]
name = "axes"
version = "0.2.4"
edition = "2021"
publish = false

[dependencies]
anyhow = "1"
bincode = { version = "2", features = ["serde"] }
blake3 = "1"
clap = { version = "4", features = ["derive"] }
colored = "2"
dialoguer = "0.11"
dirs = "5"
dunce = "1"
env_logger = "0.11"
hex = "0.4"
log = "0.4"
lz4_flex = "0.11"
rayon = "1"
scopeguard = "1"
serde = { version = "1", features = ["derive"] }
serde_json = "1"
shellexpand = "3"
shlex = "1"
tempfile = "3"
thiserror = "2"
tokio = { version = "1", features = ["rt-multi-thread", "process", "signal", "macros"] }
toml = "0.8"
uuid = { version = "1", features = ["v4", "serde"] }
walkdir = "2"

[dev-dependencies]
regex = "1"
