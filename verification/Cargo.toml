[package]
name = "batcher"
version = "0.1.0"
edition = "2021"
publish = false

[dependencies]
chrono = "*"
uuid = { version = "*", features = ["v4"] }
serde = { version = "*", features = ["derive"] }
serde_json = "*"
tokio = { version = "*", features = ["full"] }
axum = "*"
aws-sdk-s3 = "*"
aws-sdk-sqs = "*"
tracing = "*"
tracing-subscriber = "*"
