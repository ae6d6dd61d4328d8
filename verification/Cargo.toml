[package]
name = "enthalpy"
version = "0.1.0"
edition = "2021"
publish = false

[dependencies]
serde_json = "*"
chrono = "*"
serde = { version = "*", features = ["derive"] }
anyhow = "*"
tokio = { version = "*", features = ["rt", "rt-multi-thread", "sync", "time", "macros"] }
reqwest = { version = "*", default-features = false, features = ["rustls-tls", "json", "stream"] }
futures-util = "*"
candle-core = "*"
candle-nn = "*"
cpal = "*"
voice_activity_detector = "*"
