[package]
name = "tilegen"
version = "0.1.0"
edition = "2021"
publish = false

[dependencies]
anyhow = "1"
bytemuck = { version = "1", features = ["derive"] }
clap = { version = "4", features = ["derive"] }
image = "0.25"
indicatif = "0.18"
pollster = "0.4"
ravif = { version = "*", default-features = false }
rayon = "1"
rgb = "0.8"
webp = "0.3"
wgpu = "27"
