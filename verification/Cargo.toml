[package]
name = "mlx_transforms"
version = "0.1.0"
edition = "2021"
publish = false

[dependencies]
mlx-sys = "0.7.0"
