[package]
name = "radiance"
version = "0.1.0"
edition = "2021"
publish = false

[dependencies]
cpal = "=0.18.2"
directories = "*"
env_logger = "*"
serde = { version = "=1.0.229", features = ["derive"] }
serde_json = "=1.0.154"
