[package]
name = "jimjam"
version = "0.1.0"
edition = "2021"
publish = false

[dependencies]
axum = "0.7"
glob = "0.3"
notify = "6"
notify-debouncer-mini = "0.4"
regex = "1"
serde = { version = "1", features = ["derive"] }
serde_json = "1"
serde_yaml = "0.9"
tokio = { version = "1", features = ["full"] }
tracing = "0.1"
tracing-subscriber = "0.3"
