[package]
name = "niri_effects"
version = "0.1.0"
edition = "2021"
publish = false

[dependencies]
xcursor = "0.3"
cursor-icon = "1"
anyhow = "1"
smithay = { version = "*", default-features = false, features = ["wayland_frontend", "renderer_gl"] }
