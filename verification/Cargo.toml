[package]
name = "rustfig"
version = "0.1.0"
edition = "2021"
publish = false

[dependencies]
serde = { version = "*", features = ["derive"] }
serde_json = "*"
serde_yaml = "*"
dirs = "*"
uuid = { version = "*", features = ["v4"] }
