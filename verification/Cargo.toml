[package]
name = "plainchat_server"
version = "0.1.0"
edition = "2021"
publish = false

[dependencies]
jsonwebtoken = "*"
serde = { version = "*", features = ["derive"] }
serde_json = "*"
redis = "*"
chrono = "*"
uuid = { version = "*", features = ["v4"] }
