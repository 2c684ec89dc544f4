[package]
name = "koma"
version = "0.1.0"
edition = "2021"
publish = false

[dependencies]
anyhow = "1"
arboard = { version = "3", default-features = false }
bytemuck = { version = "1", features = ["derive"] }
env_logger = "0.11"
fontdb = "*"
libc = "0.2"
log = "0.4"
pollster = "*"
portable-pty = "*"
swash = "*"
unicode-width = "*"
vte = "*"
wgpu = "*"
winit = "0.30"
