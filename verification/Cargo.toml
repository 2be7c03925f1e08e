[package]
name = "voxel_carving"
version = "0.1.0"
edition = "2021"
publish = false

[dependencies]
bytemuck = { version = "=1.25.2", features = ["derive"] }
flume = "=0.11.1"
futures = "=0.3.34"
log = "=0.4.34"
wgpu = "=23.0.1"
nokhwa = "=0.10.11"
spacetimedb = "=1.12.0"
bevy = { version = "0.17", default-features = false, features = ["std", "bevy_asset", "bevy_render"] }
