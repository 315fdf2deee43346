[package]
name = "cce-list"
version = "0.1.0"
edition = "2021"
publish = false

[dependencies]
calloop = "*"
chrono = "0.4"
env_logger = "*"
keyring = { version = "3", default-features = false, features = ["async-secret-service", "async-io", "crypto-rust"] }
log = "0.4"
reqwest = { version = "0.12", default-features = false, features = ["blocking", "json", "rustls-tls"] }
roxmltree = "*"
serde = { version = "1", features = ["derive"] }
serde_json = "1"
wayland-client = "*"
