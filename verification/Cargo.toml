[package]
name = "polyester_examples"
version = "0.1.0"
edition = "2021"
publish = false

[dependencies]
anyhow = "1"
polyester-sdk = "0.1.0-alpha.37"
rust_decimal = "1"
serde_json = "1"
tokio = { version = "1", features = ["time", "rt", "macros"] }
