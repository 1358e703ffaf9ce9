[package]
name = "momentum"
version = "0.1.0"
edition = "2021"
publish = false

[dependencies]
bytemuck = "1"
pollster = "0.3"
serde = { version = "1", features = ["derive"] }
tera = "1"
wgpu = "0.19"
