[package]
name = "routing"
version = "0.1.0"
edition = "2021"
publish = false

[dependencies]
anyhow = "1"
gl = "0.14"
glutin = "0.31"
glutin-winit = "0.4"
image = { version = "0.24", default-features = false, features = ["png"] }
nalgebra = "0.32"
parry2d = "0.13"
rand = "0.8"
raw-window-handle = "0.5"
skia-safe = { version = "*", features = ["gl"] }
winit = "0.29"
