[package]
name = "relay_core"
version = "0.1.0"
edition = "2021"
publish = false

[dependencies]
anyhow = "1"
axum = "=0.8.9"
base64 = "=0.23.1"
chrono = "=0.4.45"
clap = { version = "=4.6.7", features = ["derive"] }
ed25519-dalek = "=3.0.0"
futures = "=0.3.34"
json-syntax = { version = "=0.12.5", features = ["canonicalize"] }
notify = "=8.2.0"
notify-debouncer-mini = "=0.7.0"
parking_lot = "=0.12.5"
pem = "=4.0.0"
rand = "=0.8.8"
reqwest = { version = "=0.13.5", default-features = false }
serde = { version = "1", features = ["derive"] }
serde_json = "1"
sqlx = { version = "=0.9.0", default-features = false, features = ["runtime-tokio", "sqlite", "migrate"] }
thiserror = "2"
tokio = { version = "=1.53.2", features = ["full"] }
tokio-cron-scheduler = "=0.15.1"
toml = "0.8"
uuid = { version = "=1.27.0", features = ["v4"] }
