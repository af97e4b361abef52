[package]
name = "pawbae_core"
version = "0.1.0"
edition = "2021"
publish = false

[dependencies]
serde = { version = "1", features = ["derive"] }
serde_json = "1"
chrono = "0.4"
percent-encoding = "2"
base64 = "0.22"
dirs = "*"
log = "0.4"
