[package]
name = "cube_physics"
version = "0.1.0"
edition = "2021"
publish = false

[dependencies]
gl = "0.14"
glm = "0.2"
glutin = "0.30"
glutin-winit = "0.3"
image = { version = "0.24", default-features = false, features = ["png"] }
raw-window-handle = "0.5"
thiserror = "1"
winit = "0.28"
