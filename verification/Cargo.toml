[package]
name = "zeroclaw_channels"
version = "0.1.0"
edition = "2021"
publish = false

[dependencies]
regex = "1"
hex = "0.4"
hmac = "0.12"
sha2 = "0.10"
serde = { version = "1", features = ["derive"] }
serde_json = "1"
anyhow = "1"
async-trait = "0.1"
tracing = "0.1"
portable-atomic = "1"
tokio = { version = "1", features = ["net", "sync", "rt"] }
axum = "0.8"
reqwest = { version = "0.12", default-features = false, features = ["json"] }
