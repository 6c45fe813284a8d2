[package]
name = "keel_memory"
version = "0.1.0"
edition = "2021"
publish = false

[dependencies]
base64 = "0.22"
sha2 = "0.10"
uuid = { version = "1", features = ["v4"] }
serde = { version = "1", features = ["derive"] }
serde_json = "1"
thiserror = "1"
tokio = { version = "1", features = ["net", "io-util", "time", "rt"] }
reqwest = { version = "0.12", default-features = false, features = ["rustls-tls"] }
