[package]
name = "backgambler"
version = "0.1.0"
edition = "2021"
publish = false

[dependencies]
anyhow = "*"
chrono = "*"
csv = "*"
env_logger = "*"
log = "*"
parking_lot = "*"
serde = { version = "*", features = ["derive"] }
serde_json = "*"
ta = "*"
thiserror = "*"
tokio = { version = "*", features = ["rt-multi-thread", "macros"] }
