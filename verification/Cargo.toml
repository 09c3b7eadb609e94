[package]
name = "den-core"
version = "0.1.0"
edition = "2021"
publish = false

[dependencies]
serde = { version = "1", features = ["derive"] }
serde_json = "1"
uniffi = "0.29"
wasm-bindgen = "0.2"
zerocopy = { version = "0.8", features = ["derive"] }
