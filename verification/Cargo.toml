[package]
name = "cornelius"
version = "0.1.0"
edition = "2021"
publish = false

[dependencies]
env_logger = "=0.9.3"
log = "=0.4.34"
rocket = { version = "0.5", default-features = false, features = ["json"] }
serde = { version = "=1.0.229", features = ["derive"] }
serde_json = "=1.0.154"
