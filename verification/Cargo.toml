[package]
name = "gateway"
version = "0.1.0"
edition = "2021"
publish = false

[dependencies]
aes-gcm = "=0.10.3"
base64 = "=0.22.1"
sha2 = "=0.10.9"
dashmap = "=6.2.1"
serde_json = "=1.0.154"
serde = { version = "=1.0.229", features = ["derive"] }
axum = "=0.7.9"
tokio = { version = "=1.54.1", features = ["full"] }
reqwest = { version = "=0.12.28", default-features = false, features = ["rustls-tls", "json", "blocking", "stream"] }
toml = "=0.8.23"
tracing = "=0.1.44"
tracing-subscriber = { version = "=0.3.23", features = ["env-filter"] }
rusqlite = { version = "=0.31.0", features = ["bundled"] }
chrono = "=0.4.45"
uuid = { version = "=1.29.0", features = ["v4"] }
clap = { version = "=4.6.7", features = ["derive", "env"] }
