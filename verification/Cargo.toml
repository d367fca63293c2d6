[package]
name = "plasma_pong"
version = "0.1.0"
edition = "2021"
publish = false

[dependencies]
anyhow = "1"
clap = { version = "4", features = ["derive"] }
gl = "0.14"
glam = { version = "0.24", features = ["rand"] }
glutin = "0.30"
glutin-winit = "0.3"
glyph_brush = "0.7"
rand = "0.8"
raw-window-handle = "0.5"
winit = "0.28"
