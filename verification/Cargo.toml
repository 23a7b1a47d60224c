[package]
name = "josefine"
version = "0.1.0"
edition = "2021"
publish = false

[dependencies]
kafka-protocol = "*"
serde = { version = "1", features = ["derive"] }
serde_json = "1"
sled = "*"
slog = "2"
slog-async = "2"
slog-term = "2"
threadpool = "1"
tokio = { version = "1", features = ["full"] }
async-trait = "*"
failure = "0.1"
