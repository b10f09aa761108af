[package]
name = "kimi_code_extra"
version = "0.1.0"
edition = "2021"
publish = false

[dependencies]
regex-lite = "0.1"
reqwest = { version = "0.12", default-features = false, features = ["rustls-tls"] }
serde = { version = "1", features = ["derive"] }
serde_json = "1"
tokio = { version = "1", features = ["net", "rt", "time"] }
url = "2"
