[package]
name = "tilt_paint"
version = "0.1.0"
edition = "2021"
publish = false

[dependencies]
bevy = { version = "=0.18.1", default-features = false, features = ["bevy_asset", "bevy_image"] }
wgpu-types = "=27.0.1"
