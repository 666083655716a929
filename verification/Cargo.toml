[package]
name = "sable_history"
version = "0.1.0"
edition = "2021"
publish = false

[dependencies]
bincode = "1"
concurrent_log = { version = "*", features = ["serde"] }
parking_lot = "0.12"
serde = { version = "1", features = ["derive"] }
serde_with = "*"
thiserror = "1"
tokio = { version = "1", features = ["net"] }
