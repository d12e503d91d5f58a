[package]
name = "tcp_proxy"
version = "0.1.0"
edition = "2021"
publish = false

[dependencies]
fastrand = "=2.5.0"
anyhow = "=1.0.104"
arc-swap = "=1.9.3"
dashmap = "=6.2.1"
futures = "=0.3.34"
metrics = "=0.24.6"
metrics-exporter-prometheus = "=0.18.3"
serde = { version = "=1.0.229", features = ["derive"] }
serde_json = "=1.0.154"
serde_path_to_error = "=0.1.20"
humantime-serde = "=1.1.1"
socket2 = { version = "=0.5.10", features = ["all"] }
thiserror = "=2.0.21"
tokio = { version = "=1.54.1", features = ["full"] }
tokio-util = "=0.7.20"
tracing = "=0.1.44"
tracing-subscriber = "=0.3.23"
