[package]
name = "delegated_auth"
version = "0.1.0"
edition = "2021"
publish = false

[dependencies]
candid = "=0.10.37"
cookie = { version = "=0.18.2", features = ["signed"] }
ic-agent = { version = "=0.49.2", default-features = false }
k256 = { version = "=0.13.4", features = ["jwk"] }
serde = { version = "=1.0.229", features = ["derive"] }
serde_json = "=1.0.151"
axum = "=0.8.9"
axum-extra = { version = "=0.12.6", features = ["cookie-signed"] }
http = "=1.5.0"
