[package]
name = "chat_relay"
version = "0.1.0"
edition = "2021"
publish = false

[dependencies]
axum = { version = "*", features = ["ws"] }
serde = { version = "*", features = ["derive"] }
serde_json = "*"
thiserror = "*"
tokio = { version = "*", features = ["rt-multi-thread", "macros", "sync", "net"] }
tower-http = { version = "*", features = ["fs", "cors"] }
tracing = "*"
tracing-subscriber = { version = "*", features = ["env-filter"] }
