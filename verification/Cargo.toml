[package]
name = "agentledger"
version = "0.1.0"
edition = "2021"
publish = false

[dependencies]
axum = "=0.8.9"
blake3 = "=1.8.7"
clap = { version = "=4.6.7", features = ["derive"] }
futures-util = "=0.3.34"
pyo3 = { version = "=0.26.0", features = ["extension-module", "abi3-py310"] }
reqwest = { version = "=0.12.28", default-features = false, features = ["json", "rustls-tls", "stream"] }
rusqlite = { version = "=0.41.1", features = ["bundled"] }
serde = { version = "=1.0.229", features = ["derive"] }
serde_json = "=1.0.154"
time = { version = "=0.3.55", features = ["formatting"] }
tokio = { version = "=1.54.1", features = ["full"] }
toml = "=1.1.8"
uuid = { version = "=1.29.0", features = ["v4"] }
