[package]
name = "hexgol"
version = "0.1.0"
edition = "2021"
publish = false

[dependencies]
rand = "0.8"
bytemuck = { version = "1", features = ["derive"] }
pollster = "0.2"
raw-window-handle = "0.5"
wgpu = "0.14"
