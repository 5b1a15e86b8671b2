[package]
name = "mlx-vocoders"
version = "0.1.0"
edition = "2021"
publish = false

[dependencies]
anyhow = "=1.0.104"
hound = "=3.5.1"
metal = "*"
mlx-rs = "=0.33.0"
mlx-sys = "=0.7.0"
soxr = "=0.6.0"
