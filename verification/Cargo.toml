[package]
name = "vicode"
version = "0.1.0"
edition = "2021"
publish = false

[dependencies]
anyhow = "=1.0.104"
clap = { version = "=4.6.7", features = ["derive"] }
futures = "=0.3.34"
git2 = { version = "=0.21.0", default-features = false }
ignore = "=0.4.34"
indexmap = { version = "=2.14.2", features = ["serde"] }
libgit2-sys = "=0.18.8"
petname = "=3.2.0"
rand = "=0.10.3"
serde = { version = "=1.0.229", features = ["derive"] }
serde_json = "=1.0.154"
shellexpand = "=3.1.2"
similar = "=3.2.1"
thiserror = "=2.0.21"
tokio = { version = "=1.54.1", features = ["rt-multi-thread", "macros", "sync", "process", "fs", "time"] }
toml = "=1.1.8"
uuid = { version = "=1.29.0", features = ["v4"] }
xdg = "=3.0.0"
