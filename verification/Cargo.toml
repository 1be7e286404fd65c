[package]
name = "light_client"
version = "0.1.0"
edition = "2021"
publish = false

[dependencies]
gumdrop = "0.8"
serde = { version = "1", features = ["derive"] }
serde_json = "1"
thiserror = "1"
wasm-bindgen = "0.2"
wasm-bindgen-futures = "0.4"
web-sys = { version = "0.3", features = ["Headers", "Request", "RequestInit", "RequestMode", "Response", "Window"] }
