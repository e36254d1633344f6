[package]
name = "podpingd"
version = "0.1.0"
edition = "2021"
publish = false

[dependencies]
chrono = { version = "=0.4.45", features = ["serde"] }
regex = "=1.13.1"
serde = { version = "=1.0.229", features = ["derive"] }
serde_json = "=1.0.154"
serde_with = "=3.24.0"
jsonrpsee = { version = "=0.24.11", features = ["http-client", "client-core"] }
jsonrpsee-http-client = "=0.24.11"
tower = "=0.4.13"
tower-http = { version = "=0.7.1", features = ["compression-full", "decompression-full"] }
tokio = { version = "=1.54.1", features = ["full"] }
tracing = "=0.1.44"
tracing-subscriber = "=0.3.23"
color-eyre = "=0.6.5"
walkdir = "=2.5.0"
config = { version = "=0.15.27", default-features = false, features = ["toml"] }
humantime-serde = "=1.1.1"
