[package]
name = "secret_store"
version = "0.1.0"
edition = "2021"
publish = false

[dependencies]
ethereum-types = "=0.12.1"
parity-crypto = { version = "=0.9.0", features = ["publickey"] }
serde = { version = "=1.0.229", features = ["derive"] }
serde_json = "=1.0.154"
