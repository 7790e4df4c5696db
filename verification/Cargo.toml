[package]
name = "woerterbuch"
version = "0.1.0"
edition = "2021"
publish = false

[dependencies]
rand = "0.8"
base64 = "0.21"
calamine = "0.21"
json = "0.12"
log = "0.4"
reqwest = { version = "0.11", default-features = false }
serde = { version = "1", features = ["derive"] }
wasm-bindgen = "0.2"
wasm-bindgen-futures = "0.4"
wasm-logger = "0.2"
js-sys = "0.3"
