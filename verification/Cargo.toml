[package]
name = "infuser"
version = "0.1.0"
edition = "2021"
publish = false

[dependencies]
mongodb = { version = "*", features = ["sync"] }
serde = { version = "*", features = ["derive"] }
serde_json = "*"
