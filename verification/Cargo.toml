[package]
name = "avante_curl"
version = "0.1.0"
edition = "2021"
publish = false

[dependencies]
anyhow = "=1.0.104"
dashmap = "=6.2.1"
futures-util = "=0.3.34"
reqwest = { version = "=0.13.5", default-features = false, features = ["stream", "query", "form", "json", "gzip", "deflate", "brotli", "http2"] }
serde = { version = "=1.0.229", features = ["derive"] }
serde_json = "=1.0.151"
thiserror = "=2.0.21"
tokio = { version = "=1.53.2", features = ["rt-multi-thread"] }
url = "=2.5.8"
uuid = { version = "=1.27.0", features = ["v4"] }
