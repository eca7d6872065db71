[package]
name = "pgbb"
version = "0.1.0"
edition = "2021"
publish = false

[dependencies]
openssl = "0.10"
unicode-normalization = "0.1"
tokio = { version = "1", features = ["full"] }
axum = "0.8"
bytes = "1"
futures-util = "0.3"
serde = { version = "1", features = ["derive"] }
clap = "4"
env_logger = "0.11"
log = "0.4"
