[package]
name = "prism_host"
version = "0.1.0"
edition = "2021"
publish = false

[dependencies]
anyhow = "1"
serde = { version = "1", features = ["derive"] }
serde_json = "1"
wasmtime = "=47.0.4"
wasmtime-wasi = "=47.0.4"
