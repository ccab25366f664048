[package]
name = "codehunt"
version = "0.1.0"
edition = "2021"
publish = false

[dependencies]
regex = "1"
serde_json = "1"
serde_yaml = "0.9"
toml = "0.8"
leaky-bucket = "1"
rocket = { version = "0.5", features = ["json"] }
shuttle-runtime = "*"
shuttle-rocket = "*"
