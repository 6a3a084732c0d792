[package]
name = "launch_deck"
version = "0.1.0"
edition = "2021"
publish = false

[dependencies]
serde = { version = "1", features = ["derive"] }
serde_json = "1"
toml = "*"
chrono = "0.4"
uuid = { version = "1", features = ["v4"] }
thiserror = "*"
tracing = "0.1"
parking_lot = "0.12"
tokio = { version = "1", features = ["rt-multi-thread", "macros", "process", "sync", "time", "io-util"] }
ureq = "2"
sysinfo = "*"
png = "*"
