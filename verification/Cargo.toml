[package]
name = "quanshu"
version = "0.1.0"
edition = "2021"
publish = false

[dependencies]
anyhow = "1"
async-stream = "0.3"
clap = { version = "3", features = ["derive"] }
futures = "0.3"
hyper = { version = "0.14", features = ["full"] }
hyper-tungstenite = "0.8"
pyo3 = "0.16"
pyo3-asyncio = { version = "0.16", features = ["tokio-runtime"] }
socket2 = { version = "0.4", features = ["all"] }
tokio = { version = "1", features = ["full"] }
tokio-graceful-shutdown = "0.10"
tokio-native-tls = "0.3"
tokio-stream = "0.1"
