[package]
name = "glaphica"
version = "0.1.0"
edition = "2021"
publish = false

[dependencies]
bitvec = "1"
bytemuck = { version = "1", features = ["derive"] }
pollster = "0.4"
serde = { version = "1", features = ["derive"] }
slotmap = "1"
wgpu = "28"
