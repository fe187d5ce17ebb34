[package]
name = "btc_rpc_proxy"
version = "0.1.0"
edition = "2021"
publish = false

[dependencies]
base64 = "=0.13.1"
hex = "=0.4.3"
itertools = "=0.10.5"
serde = { version = "=1.0.229", features = ["derive"] }
serde_json = { version = "=1.0.154", features = ["raw_value"] }
anyhow = "=1.0.104"
thiserror = "=1.0.69"
futures = "=0.3.34"
tokio = { version = "=1.54.1", features = ["full"] }
hyper = { version = "=0.14.32", features = ["full"] }
http = "=0.2.12"
bitcoin = "=0.28.2"
async-channel = "=1.9.0"
socks = "=0.3.4"
lazy_static = "=1.5.1"
rand = "=0.8.8"
linear-map = { version = "=1.2.0", features = ["serde_impl"] }
serde_yaml = "=0.8.26"
slog = "=2.8.2"
slog-term = "=2.9.2"
slog-async = "=2.8.0"
toml = "=0.5.11"
