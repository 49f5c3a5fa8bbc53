[package]
name = "wgpu_engine"
version = "0.1.0"
edition = "2021"
publish = false

[dependencies]
parking_lot = "=0.12.5"
glam = "=0.34.1"
winit = "=0.30.13"
web-time = "=1.1.0"
wgpu = "*"
