[package]
name = "tp_image"
version = "0.1.0"
edition = "2021"
publish = false

[dependencies]
image = { version = "=0.24.9", default-features = false, features = ["png", "jpeg"] }
rand = "=0.8.8"
rand_chacha = "=0.3.1"
