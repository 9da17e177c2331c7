[package]
name = "ray_tracing"
version = "0.1.0"
edition = "2021"
publish = false

[dependencies]
rand = "0.7"
rayon = "1"
indicatif = "0.15"
image = { version = "0.23", default-features = false, features = ["png", "jpeg"] }
