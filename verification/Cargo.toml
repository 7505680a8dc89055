[package]
name = "realsense_capture_service"
version = "0.1.0"
edition = "2021"
publish = false

[dependencies]
home = "*"
rocket = "*"

[dev-dependencies]
serde_yaml = "*"
