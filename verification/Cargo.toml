[package]
name = "ant_node"
version = "0.1.0"
edition = "2021"
publish = false

[dependencies]
chrono = "0.4"
fs2 = "0.4"
futures = "0.3"
hex = "=0.4.3"
rand = "=0.8.8"
saorsa-core = "=0.29.2"
serde = { version = "1", features = ["derive"] }
serde_json = "1"
sha2 = "=0.11.1"
tokio = { version = "1", features = ["fs", "macros", "rt", "rt-multi-thread", "signal", "sync", "time"] }
tokio-util = "0.7"
tracing = "0.1"
