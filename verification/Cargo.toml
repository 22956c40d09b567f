[package]
name = "crossbreed"
version = "0.1.0"
edition = "2021"
publish = false

[dependencies]
regex = "1"
wasm-bindgen = "0.2"
