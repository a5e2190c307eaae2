[package]
name = "grid_terrain"
version = "0.1.0"
edition = "2021"
publish = false

[dependencies]
noise = { version = "0.8", default-features = false }
image = { version = "0.24", default-features = false, features = ["png"] }
bevy = { version = "0.12", default-features = false }
