[package]
name = "wayvr"
version = "0.1.0"
edition = "2021"
publish = false

[dependencies]
anyhow = "*"
khronos-egl = { version = "=6.0.0", features = ["static"] }
log = "*"
pretty_env_logger = "*"
smithay = { version = "=0.7.0", default-features = false, features = ["wayland_frontend", "renderer_gl"] }
wayland-server = "=0.31.14"
