[package]
name = "web_log_backend"
version = "0.1.0"
edition = "2021"
publish = false

[dependencies]
axum = "*"
axum-connect = "*"
tokio = { version = "*", features = ["full"] }
tower-http = { version = "*", features = ["cors"] }
