[package]
name = "cillio"
version = "0.1.0"
edition = "2021"
publish = false

[dependencies]
anyhow = "=1.0.104"
async-std = { version = "=1.13.2", features = ["attributes"] }
chrono = "=0.4.45"
clap = { version = "=4.6.7", features = ["derive"] }
petgraph = "=0.8.3"
serde = { version = "=1.0.229", features = ["derive"] }
serde_json = "=1.0.151"
thiserror = "=2.0.21"
wasmtime = "=48.0.5"
wasmtime-wasi = "=48.0.5"
