[package]
name = "cryputil"
version = "0.1.0"
edition = "2021"
publish = false

[dependencies]
serde = { version = "1", features = ["derive"] }
serde_json = "1"
axum = "*"
tokio = { version = "1", features = ["rt-multi-thread", "macros", "net"] }
tower-http = { version = "*", features = ["cors", "timeout", "trace"] }
wasm-bindgen = "*"
serde-wasm-bindgen = "*"
console_error_panic_hook = "*"
