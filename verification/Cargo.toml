[package]
name = "homeapi"
version = "0.1.0"
edition = "2021"
publish = false

[dependencies]
base64 = "0.22"
sha2 = "0.10"
uuid = { version = "1", features = ["v4"] }
chrono = "0.4"
tokio = { version = "1", features = ["sync", "rt-multi-thread", "macros"] }
aws-config = "*"
aws-sdk-dynamodb = "*"
