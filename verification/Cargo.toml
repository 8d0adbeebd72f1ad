[package]
name = "np-tool"
version = "0.1.0"
edition = "2021"
publish = false

[dependencies]
axum = "0.7"
candid = "0.10"
crc32fast = "1"
hex = "0.4"
ic-agent = "0.39"
reqwest = "0.12"
serde = { version = "1", features = ["derive"] }
serde_bytes = "0.11"
serde_json = "1"
sha2 = "0.10"
thiserror = "1"
tokio = { version = "1", features = ["full"] }
tower-http = { version = "0.5", features = ["cors"] }
