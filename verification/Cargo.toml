[package]
name = "tensor_logic"
version = "0.1.0"
edition = "2021"
publish = false

[dependencies]
rayon = "1"
ndarray = { version = "0.15", features = ["rayon"] }
ndarray-rand = "0.14"
serde = { version = "1", features = ["derive"] }
tokio = { version = "1", features = ["rt-multi-thread", "sync", "macros"] }
tracing = "0.1"
wasm-bindgen = "0.2"
js-sys = "0.3"
