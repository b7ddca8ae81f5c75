[package]
name = "lianli_rgb"
version = "0.1.0"
edition = "2021"
publish = false

[dependencies]
anyhow = "1"
parking_lot = "0.12"
rusb = "0.9"
tracing = "0.1"
