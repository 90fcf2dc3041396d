[package]
name = "wgpu_project"
version = "0.1.0"
edition = "2021"
publish = false

[dependencies]
anyhow = "1"
bytemuck = { version = "1", features = ["derive"] }
env_logger = { version = "0.11", default-features = false }
glam = { version = "*", features = ["bytemuck"] }
image = { version = "0.25", default-features = false, features = ["png"] }
log = "0.4"
pollster = "0.4"
rand = "*"
tobj = "4"
wgpu = "*"
winit = "0.30"
