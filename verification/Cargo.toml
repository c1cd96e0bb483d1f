[package]
name = "aprsmsg"
version = "0.1.0"
edition = "2021"
publish = false

[dependencies]
futures-util = "0.3"
js-sys = "0.3"
serde = { version = "1", features = ["derive"] }
serde-wasm-bindgen = "0.6"
tokio = { version = "1", features = ["io-util", "macros", "net", "rt-multi-thread", "sync"] }
tokio-tungstenite = "*"
wasm-bindgen = "0.2"
