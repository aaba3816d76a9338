[package]
name = "ascii_frame"
version = "0.1.0"
edition = "2021"
publish = false

[dependencies]
gl = "=0.14.0"
glfw = { version = "=0.55.0", default-features = false }
tokio = { version = "=1.54.1", features = ["rt"] }
