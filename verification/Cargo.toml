[package]
name = "openai_client"
version = "0.1.0"
edition = "2021"
publish = false

[dependencies]
secrecy = "0.8"
zeroize = "1"
reqwest = { version = "0.11", default-features = false, features = ["rustls-tls"] }

[dev-dependencies]
serde_json = "1"
