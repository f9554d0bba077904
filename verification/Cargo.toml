[package]
name = "rustkube"
version = "0.1.0"
edition = "2021"
publish = false

[dependencies]
anyhow = "=1.0.104"
axum = "=0.8.9"
base64 = "=0.22.1"
chrono = "=0.4.45"
dashmap = "=6.2.1"
form_urlencoded = "=1.2.2"
hyper = { version = "=1.12.0", features = ["server", "http1", "http2"] }
hyper-util = { version = "=0.1.21", features = ["server", "server-auto", "service", "tokio", "http1", "http2"] }
json-patch = "=4.2.0"
jsonwebtoken = "=9.3.1"
metrics = "=0.24.6"
metrics-exporter-prometheus = { version = "=0.16.2", default-features = false }
prost = "=0.13.5"
prost-reflect = { version = "=0.14.7", features = ["serde"] }
rcgen = { version = "=0.13.2", features = ["x509-parser"] }
reqwest = { version = "=0.12.28", default-features = false, features = ["rustls-tls", "stream"] }
rustls = { version = "=0.23.46", default-features = false, features = ["ring", "std", "tls12"] }
rustls-pemfile = "=2.2.0"
serde = { version = "=1.0.229", features = ["derive"] }
serde_json = "=1.0.154"
serde_yaml = "=0.9.34"
tokio = { version = "=1.54.1", features = ["full"] }
tokio-rustls = { version = "=0.26.6", default-features = false, features = ["ring", "tls12"] }
tokio-stream = "=0.1.19"
tower-http = { version = "=0.6.11", features = ["catch-panic"] }
tracing = "=0.1.44"
uuid = { version = "=1.29.0", features = ["v4"] }
x509-parser = "=0.16.0"
