[package]
name = "pinger"
version = "0.1.0"
edition = "2021"
publish = false

[dependencies]
env_logger = "0.11"
ping-rs = "0.1.2"
serde = { version = "1", features = ["derive"] }
toml = "0.8"
