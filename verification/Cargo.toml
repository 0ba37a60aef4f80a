[package]
name = "session_broker"
version = "0.1.0"
edition = "2021"
publish = false

[dependencies]
serde = { version = "=1.0.229", features = ["derive"] }
serde_json = "=1.0.151"
hmac = "=0.12.1"
sha2 = "=0.10.9"
rand = "=0.8.8"
reqwest = { version = "=0.11.27", default-features = false, features = ["blocking", "json"] }
