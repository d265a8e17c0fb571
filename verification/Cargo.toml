[package]
name = "lightwatcher"
version = "0.1.0"
edition = "2021"
publish = false

[dependencies]
axum = "*"
chrono = "*"
serde = { version = "*", features = ["derive"] }
serde_json = "*"
tokio = { version = "*", features = ["full"] }
tower-http = { version = "*", features = ["compression-gzip", "normalize-path", "trace"] }
tracing = "*"
tracing-subscriber = { version = "*", features = ["env-filter"] }
