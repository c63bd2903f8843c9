[package]
name = "entropy"
version = "0.1.0"
edition = "2021"
publish = false

[dependencies]
ndarray = "0.15"
pixel-canvas = "*"
rand = "0.8"
serde = { version = "1", features = ["derive"] }
serde_json = "1"
