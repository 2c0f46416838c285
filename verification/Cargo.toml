[package]
name = "workshop_demo"
version = "0.1.0"
edition = "2021"
publish = false

[dependencies]
axum = "*"
hostname = "*"
tokio = { version = "*", features = ["full"] }
tower-http = { version = "*", features = ["trace"] }
tracing = "*"
tracing-subscriber = "*"
