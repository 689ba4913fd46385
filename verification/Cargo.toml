[package]
name = "assetario"
version = "0.1.0"
edition = "2021"
publish = false

[dependencies]
anyhow = "1"
thiserror = "1"
serde = { version = "1", features = ["derive"] }
serde_json = "1"
maplit = "1"
tokio = { version = "1", features = ["full"] }
tokio-stream = "0.1"
futures-util = { version = "0.3", features = ["io"] }
futures-core = "0.3"
async-stream = "0.3"
async_zip = "0.0.9"
csv-async = { version = "1", features = ["tokio"] }
reqwest = { version = "0.11", default-features = false, features = ["rustls-tls", "stream"] }
rusoto_core = { version = "0.48", default-features = false, features = ["rustls"] }
rusoto_dynamodb = { version = "0.48", default-features = false, features = ["rustls"] }
rust-s3 = { version = "0.31", default-features = false, features = ["tokio-rustls-tls"] }
aws-config = "0.51"
aws-sdk-dynamodb = "0.21"
serde_dynamo = { version = "4", features = ["aws-sdk-dynamodb+0_21"] }
lambda_runtime = "0.7"
tracing = "0.1"
tracing-subscriber = "0.3"
