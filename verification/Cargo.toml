[package]
name = "fluid_sim"
version = "0.1.0"
edition = "2021"
publish = false

[dependencies]
rand = "=0.8.8"
wgpu = { version = "=23.0.1", default-features = false, features = ["wgsl"] }
nalgebra = "=0.33.3"
pollster = "=0.3.0"
bytemuck = { version = "=1.21.0", features = ["derive"] }
