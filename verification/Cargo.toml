[package]
name = "visualizer"
version = "0.1.0"
edition = "2021"
publish = false

[dependencies]
bytemuck = { version = "=1.25.2", features = ["derive"] }
glam = "=0.32.1"
glyphon = "=0.11.0"
mpris = "=2.1.0"
pipewire = "=0.9.2"
pollster = "=0.4.0"
ringbuf = "=0.4.8"
rustfft = "=6.4.1"
wgpu = "=29.0.4"
winit = "=0.30.13"
