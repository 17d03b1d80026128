[package]
name = "arkade_city"
version = "0.3.0"
edition = "2021"
publish = false

[dependencies]
anyhow = "1"
ark-core = "*"
base64 = "0.22"
bitcoin = { version = "0.32", features = ["rand", "serde"] }
console_error_panic_hook = "0.1"
futures-util = "0.3"
js-sys = "0.3"
reqwest = { version = "0.12", default-features = false, features = ["rustls-tls"] }
serde = { version = "1", features = ["derive"] }
serde_json = "1"
serde-wasm-bindgen = "0.6"
tokio = { version = "1", features = ["rt", "time"] }
wasm-bindgen = "0.2"
wasm-bindgen-futures = "0.4"
web-sys = { version = "0.3", features = ["AbortSignal", "Headers", "Request", "RequestInit", "Response", "Storage", "Window", "console"] }
