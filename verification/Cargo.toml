[package]
name = "lingua"
version = "0.1.0"
edition = "2021"
publish = false

[dependencies]
serde_json = "1"
sys-locale = "0.3"
thiserror = "1"
once_cell = "1"
wasm-bindgen = "0.2"
wasm-bindgen-futures = "0.4"
js-sys = "0.3"
web-sys = { version = "0.3", features = ["console", "Navigator", "Request", "RequestInit", "RequestMode", "Response", "Window"] }
