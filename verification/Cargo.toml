[package]
name = "keypom"
version = "0.1.0"
edition = "2021"
publish = false

[dependencies]
near-sdk = { version = "=5.30.0", features = ["non-contract-usage"] }
hex = "=0.4.3"
serde_json = "=1.0.154"
serde = { version = "=1.0.229", features = ["derive"] }
