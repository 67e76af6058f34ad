[package]
name = "kaspa-rust-bot"
version = "0.1.0"
edition = "2021"
publish = false
rust-version = "1.95"

[dependencies]
anyhow = "=1.0.104"
chrono = "=0.4.45"
dashmap = "=6.2.1"
dotenvy = "=0.15.7"
dptree = "=0.5.1"
futures-util = "=0.3.34"
kaspa-addresses = "=2.1.0"
kaspa-hashes = "=2.1.1"
log = "=0.4.35"
regex = "=1.13.1"
reqwest = { version = "=0.12.28", features = ["json"] }
rev_lines = "=0.3.0"
serde = { version = "=1.0.229", features = ["derive"] }
serde_json = "=1.0.154"
# Held back for teloxide-core: takecell 0.1.2 asks for a newer Rust than this
# package's rust-version.
takecell = "=0.1.1"
sysinfo = { version = "=0.40.1", default-features = false, features = ["system"] }
teloxide = { version = "=0.17.0", features = ["macros"] }
thiserror = "*"
tokio = { version = "=1.54.1", features = ["full"] }
tokio-tungstenite = "=0.30.0"
tracing = "=0.1.44"
tracing-appender = "=0.2.5"
tracing-subscriber = "=0.3.23"
