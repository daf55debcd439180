[package]
name = "majiang"
version = "0.1.0"
edition = "2021"
publish = false

[dependencies]
rand = "0.8"
bincode = "1"
serde = { version = "1", features = ["derive"] }
serde_derive = "1"
serde_bytes = "0.11"
chrono = "0.4"
futures = "0.3"
tokio = { version = "1", features = ["full"] }
redis = { version = "*", features = ["tokio-comp"] }
rdkafka = "*"
