[package]
name = "asset_momentum"
version = "0.1.0"
edition = "2021"
publish = false

[dependencies]
chrono = "*"
serde = { version = "*", features = ["derive"] }
serde_json = "*"
reqwest = { version = "*", features = ["blocking", "json"], default-features = false }
mongodb = { version = "*", features = ["sync"] }
