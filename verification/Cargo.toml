[package]
name = "fedavg"
version = "0.1.0"
edition = "2021"
publish = false

[dependencies]
axum = "*"
ndarray = "*"
rand = "*"
serde = { version = "*", features = ["derive"] }
serde_json = "*"
tokio = { version = "*", features = ["macros", "net", "rt-multi-thread", "sync"] }
tracing-subscriber = "*"
