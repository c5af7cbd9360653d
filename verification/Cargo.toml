[package]
name = "layout_engine"
version = "0.1.0"
edition = "2021"
publish = false

[dependencies]
font-kit = "=0.6.0"
skribo = "=0.1.0"
winit = "=0.30.13"
