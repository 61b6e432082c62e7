[package]
name = "tor_router"
version = "0.1.0"
edition = "2021"
publish = false

[dependencies]
axum = "=0.8.9"
axum-server = { version = "=0.7.3", features = ["tls-rustls"] }
chrono = "=0.4.45"
jsonwebtoken = "=9.3.1"
lazy_static = "=1.5.1"
libc = "=0.2.191"
parking_lot = "=0.12.5"
reqwest = { version = "=0.12.28", default-features = false, features = ["json", "socks", "rustls-tls"] }
rusqlite = { version = "=0.32.1", features = ["bundled"] }
rustls-acme = { version = "=0.12.1", features = ["axum"] }
serde = { version = "=1.0.229", features = ["derive"] }
serde_json = { version = "=1.0.154", features = ["raw_value"] }
tokio = { version = "=1.54.1", features = ["full"] }
tokio-stream = "=0.1.19"
tower-http = { version = "=0.6.11", features = ["fs"] }
tracing = "=0.1.44"
tracing-subscriber = { version = "=0.3.23", features = ["env-filter", "fmt", "registry"] }
