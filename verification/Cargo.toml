[package]
name = "cutter"
version = "0.3.0"
edition = "2021"
publish = false

[dependencies]
image = "=0.24.9"
clap = "=2.34.0"
tokio = { version = "=1.54.1", features = ["macros", "rt-multi-thread"] }
aws-config = "=0.101.0"
aws-sdk-s3 = "=0.38.0"
lambda_runtime = "=1.5.0"
serde = { version = "=1.0.229", features = ["derive"] }
