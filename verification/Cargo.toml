[package]
name = "queue_drain"
version = "0.1.0"
edition = "2021"
publish = false

[dependencies]
md5 = "*"
redis = "*"
serde = { version = "*", features = ["derive"] }
serde_json = "*"
csv = "*"
tokio = { version = "*", features = ["rt-multi-thread", "sync", "macros"] }
