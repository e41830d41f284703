[package]
name = "crochet_core"
version = "0.1.0"
edition = "2021"
publish = false

[dependencies]
rand = "0.8"
rand_chacha = "0.3"
serde = { version = "1", features = ["derive"] }
serde_json = "1"
anyhow = "1"
nalgebra = "*"
nalgebra-sparse = "*"
gltf = { version = "1", default-features = false, features = ["utils"] }
wasm-bindgen = "0.2"
wasm-bindgen-futures = "0.4"
serde-wasm-bindgen = "*"
web-sys = { version = "0.3", features = ["console"] }
console_error_panic_hook = "0.1"
