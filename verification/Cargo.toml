[package]
name = "poem_ratelimit"
version = "0.1.0"
edition = "2021"
publish = false

[dependencies]
poem = "=3.1.12"
redis = { version = "=1.7.1", features = ["tokio-comp"] }
serde = { version = "=1.0.229", features = ["derive"] }
thiserror = "=2.0.21"
