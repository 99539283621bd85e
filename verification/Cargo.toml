[package]
name = "aluminum"
version = "0.1.0"
edition = "2021"
publish = false

[dependencies]
futures = "=0.3.34"
influxdb2 = { version = "=0.5.2", default-features = false, features = ["rustls"] }
influxdb2-structmap = "=0.2.0"
pyo3 = { version = "=0.20.3", features = ["extension-module"] }
pyo3-asyncio = { version = "=0.20.0", features = ["tokio-runtime"] }
