[package]
name = "taplo"
version = "0.1.0"
edition = "2021"
publish = false

[dependencies]
indexmap = "*"
rowan = "*"
lsp-types = "0.95"
regex = "1"
schemars = "0.8"
serde = { version = "1", features = ["derive"] }
serde_json = "1"
wasm-bindgen-futures = "0.4"
