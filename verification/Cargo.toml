[package]
name = "bits"
version = "0.1.0"
edition = "2021"
publish = false

[dependencies]
async-nats = "0.50"
async-trait = "0.1"
authotron-types = "=0.1.0"
axum = "=0.8.9"
bytes = "1"
chrono = { version = "=0.4.45", features = ["serde"] }
dashmap = "=6.2.1"
futures = "0.3"
inventory = "0.3"
opentelemetry = "=0.33.1"
opentelemetry-prometheus = "=0.33.1"
opentelemetry_sdk = "=0.33.1"
prometheus = "=0.14.0"
pyo3 = { version = "0.29", features = ["abi3-py39"] }
pyo3-async-runtimes = { version = "0.29", features = ["tokio-runtime"] }
pythonize = "0.29"
rand = "=0.8.8"
reqwest = { version = "=0.12.28", default-features = false, features = ["json", "stream"] }
serde = { version = "1", features = ["derive"] }
serde_json = "=1.0.154"
serde_yaml = "=0.9.34"
thiserror = "2"
tikv-client = { version = "=0.4.0", default-features = false }
tokio = { version = "1", features = ["full"] }
tokio-stream = "0.1"
tracing = "0.1"
tracing-subscriber = { version = "0.3", features = ["env-filter"] }
uuid = { version = "=1.29.0", features = ["v4"] }

[dev-dependencies]
base64 = "0.22"
