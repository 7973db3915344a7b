[package]
name = "healer"
version = "0.1.0"
edition = "2021"
publish = false

[dependencies]
anyhow = "1"
async-trait = "0.1"
aya = "0.13"
bytes = "1"
clap = { version = "4", features = ["derive"] }
daemonize = "0.5"
dirs-next = "2"
nix = { version = "0.29", features = ["signal", "process"] }
reqwest = { version = "0.12", default-features = false }
serde = { version = "1", features = ["derive"] }
serde_yaml = "0.9"
sysinfo = "*"
tokio = { version = "1", features = ["full"] }
tracing = "0.1"
tracing-appender = "0.2"
tracing-subscriber = { version = "0.3", features = ["env-filter"] }
users = "0.11"
