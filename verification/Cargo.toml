[package]
name = "sync_engine"
version = "0.1.0"
edition = "2021"
publish = false

[dependencies]
chrono = { version = "=0.4.45", features = ["serde"] }
rand = "=0.8.8"
axum = "=0.8.9"
base64 = "=0.22.1"
serde = { version = "1", features = ["derive"] }
serde_json = "1"
tokio = { version = "=1.53.2", features = ["rt-multi-thread", "macros", "net"] }
