[package]
name = "edepot"
version = "0.1.0"
edition = "2021"
publish = false

[dependencies]
tokio = { version = "1", features = ["sync", "rt-multi-thread", "macros", "time", "signal"] }
ipnet = "2"
serde = { version = "1", features = ["derive"] }
toml = "0.8"
thiserror = "1"
tracing = "0.1"
tracing-subscriber = "0.3"
nftables = "*"
rusqlite = { version = "*", features = ["bundled"] }
chrono = "0.4"
async-trait = "0.1"
