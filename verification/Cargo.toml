[package]
name = "ayude"
version = "0.1.0"
edition = "2021"
publish = false

[dependencies]
base64 = "0.13"
bytemuck = "1"
glam = { version = "0.24", features = ["bytemuck"] }
image = { version = "0.24", default-features = false, features = ["png", "jpeg"] }
serde = { version = "1", features = ["derive"] }
serde_json = "1"
