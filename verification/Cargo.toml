[package]
name = "dnstest"
version = "0.1.0"
edition = "2021"
publish = false

[dependencies]
clap = { version = "*", features = ["derive"] }
color-eyre = "*"
crossterm = "*"
dirs = "*"
futures = "*"
ratatui = "*"
serde = { version = "*", features = ["derive"] }
serde_json = "*"
surge-ping = "*"
thiserror = "*"
tokio = { version = "*", features = ["macros", "rt-multi-thread", "sync", "time"] }
tracing = "*"
tracing-subscriber = { version = "*", features = ["env-filter"] }
trust-dns-resolver = "*"
