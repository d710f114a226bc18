[package]
name = "formula"
version = "0.1.0"
edition = "2021"
publish = false

[dependencies]
wasm-bindgen = "0.2"

[dev-dependencies]
combine = "4"
