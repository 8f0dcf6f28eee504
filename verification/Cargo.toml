[package]
name = "dnsr"
version = "0.1.0"
edition = "2021"
publish = false

[dependencies]
domain = { version = "*", features = ["tsig"] }
ring = "*"
base64 = "*"
bytes = "*"
log = "*"
serde = { version = "*", features = ["derive"] }
serde_yaml = "*"
notify = "*"
