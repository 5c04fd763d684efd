[package]
name = "chaos_theory"
version = "0.1.0"
edition = "2021"
publish = false

[dependencies]
js-sys = "0.3"
log = "0.4"
serde = { version = "1", features = ["derive"] }
wasm-bindgen = "0.2"
wasm-logger = "0.2"
