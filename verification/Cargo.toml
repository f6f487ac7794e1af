[package]
name = "cache_manager_lib"
version = "0.1.1"
edition = "2021"
publish = false

[dependencies]
base64 = "=0.22.1"
fred = { version = "=10.1.0", features = ["i-all", "sentinel-client", "monitor", "serde-json", "enable-rustls-ring"] }
futures = "=0.3.34"
parking_lot = "=0.12.5"
serde = { version = "=1.0.229", features = ["derive"] }
serde_json = "=1.0.154"
shlex = "=1.3.0"
tokio = { version = "=1.54.1", features = ["full"] }
