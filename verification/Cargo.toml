[package]
name = "fusion"
version = "0.1.0"
edition = "2021"
publish = false

[dependencies]
anyhow = "1"
mcap = "*"
prost = "*"
serde = { version = "1", features = ["derive"] }
serde_json = "1"
serde_yaml_ng = "*"
