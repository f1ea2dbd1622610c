[package]
name = "dht"
version = "0.1.0"
edition = "2021"
publish = false

[dependencies]
backon = { version = "1", default-features = false, features = ["std", "tokio-sleep"] }
dashmap = "6"
futures = "0.3"
leaky-bucket = "1"
librqbit-dualstack-sockets = "*"
parking_lot = "0.12"
serde = { version = "1", features = ["derive"] }
tokio = { version = "1", features = ["macros", "net", "rt", "rt-multi-thread", "sync", "time"] }
tokio-util = "0.7"
tracing = "0.1"
