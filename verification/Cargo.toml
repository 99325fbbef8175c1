[package]
name = "zeroclaw_sticker"
version = "0.1.0"
edition = "2021"
publish = false

[dependencies]
sha2 = "0.10"
serde_json = "1"
tokio = { version = "1", features = ["sync", "rt", "macros"] }
anyhow = "1"
async-trait = "0.1"
parking_lot = "0.12"
reqwest = { version = "0.12", default-features = false, features = ["json", "rustls-tls"] }
