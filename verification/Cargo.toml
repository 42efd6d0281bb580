[package]
name = "cortex"
version = "1.2.0"
edition = "2021"
publish = false

[dependencies]
chrono = "0.4"
futures = "0.3"
regex = "1"
reqwest = { version = "0.12", default-features = false, features = ["json", "rustls-tls"] }
ruvector-core = { version = "*", default-features = false }
serde = { version = "1", features = ["derive"] }
serde_json = "1"
tokio = { version = "1", features = ["sync", "rt"] }
