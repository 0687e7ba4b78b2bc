[package]
name = "pixelplan"
version = "0.1.0"
edition = "2021"
publish = false

[dependencies]
image-texel = "=0.5.0"
image = { version = "=0.23.14", default-features = false }
bytemuck = "=1.25.2"
wgpu = { version = "=0.20.1", default-features = false }
