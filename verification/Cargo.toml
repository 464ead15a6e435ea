[package]
name = "push_delivery"
version = "0.1.0"
edition = "2021"
publish = false

[dependencies]
ahash = "0.8"
base64 = "0.21"
mail-parser = "0.9"
reqwest = { version = "0.11", default-features = false, features = ["rustls-tls-webpki-roots"] }
serde_json = "1"
tokio = { version = "1", features = ["rt", "sync", "time"] }
tracing = "0.1"
