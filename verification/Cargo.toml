[package]
name = "perfect_pitch"
version = "0.1.0"
edition = "2021"
publish = false

[dependencies]
anyhow = "*"
cpal = "*"
eframe = { version = "*", default-features = false }
num-complex = "*"
rustfft = "*"
