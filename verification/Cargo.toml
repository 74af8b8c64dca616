[package]
name = "ommatidia_tools"
version = "0.1.0"
edition = "2021"
publish = false

[dependencies]
serde = { version = "1", features = ["derive"] }
serde_json = "1"
png = "0.17"
half = "2"
gltf = "1"
ron = "*"
env_logger = "0.11"
log = "0.4"
