[package]
name = "pweq"
version = "0.1.0"
edition = "2021"
publish = false

[dependencies]
anyhow = "=1.0.104"
clap = { version = "=4.6.7", features = ["derive"] }
crossterm = { version = "=0.29.0", features = ["event-stream"] }
dirs = "=7.0.0"
futures-util = "=0.3.34"
pipewire = "*"
ratatui = "=0.30.2"
reqwest = { version = "=0.13.5", default-features = false, features = ["json"] }
serde = { version = "=1.0.229", features = ["derive"] }
serde_json = { version = "=1.0.154", features = ["preserve_order"] }
shellexpand = "=3.1.2"
shellish_parse = "=2.2.0"
tabled = "=0.22.0"
tokio = { version = "=1.54.1", features = ["rt-multi-thread", "macros", "process", "fs", "sync", "time"] }
tracing = "=0.1.44"
tracing-appender = "=0.2.5"
tracing-subscriber = { version = "=0.3.23", features = ["env-filter"] }
