[package]
name = "blockchin"
version = "0.1.0"
edition = "2021"
publish = false

[dependencies]
chrono = "*"
crypto-hash = "*"
serde = { version = "*", features = ["derive"] }
serde_json = "*"
