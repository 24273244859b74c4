[package]
name = "response_transformer"
version = "0.1.0"
edition = "2021"
publish = false

[dependencies]
log = "*"
proxy-wasm = "*"
serde = { version = "*", features = ["derive"] }
serde_json = "*"
