[package]
name = "otc_wasm"
version = "0.1.0"
edition = "2021"
publish = false

[dependencies]
cosmwasm-std = "=1.5.11"
cosmwasm-schema = "=1.5.11"
cw-denom = "=2.6.0"
cw-utils = "=1.0.3"
serde = { version = "=1.0.229", features = ["derive"] }
