[package]
name = "bevy_logic"
version = "0.1.0"
edition = "2021"
publish = false

[dependencies]
taffy = "*"
cosmic-text = "*"
accesskit = "*"
wgpu-types = "*"
image = { version = "*", default-features = false, features = ["png"] }
async-channel = "*"
