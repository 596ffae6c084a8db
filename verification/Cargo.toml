[package]
name = "pixie_wasm"
version = "0.1.0"
edition = "2021"
publish = false

[dependencies]
csv = "=1.4.0"
