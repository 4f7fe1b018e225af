[package]
name = "yaw"
version = "0.1.0"
edition = "2021"
publish = false

[dependencies]
anyhow = "1"
glam = "*"
log = "0.4"
pretty_env_logger = "*"
sdl2 = { version = "*", features = ["image", "ttf"] }
