[package]
name = "poap_badge"
version = "0.1.0"
edition = "2021"
publish = false

[dependencies]
stellar-xdr = { version = "*", features = ["curr", "std", "base64"] }
stellar-strkey = "*"
soroban-sdk = "*"
axum = "0.7"
tokio = { version = "1", features = ["full"] }
tower-http = { version = "0.5", features = ["cors", "trace"] }
tracing = "0.1"
tracing-subscriber = { version = "0.3", features = ["env-filter"] }
serde = { version = "1", features = ["derive"] }
serde_json = "1"
reqwest = { version = "0.12", default-features = false, features = ["json", "rustls-tls"] }
async-trait = "0.1"
