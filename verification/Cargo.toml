[package]
name = "chip8rs"
version = "0.1.0"
edition = "2021"
publish = false

[dependencies]
rand = "*"
macroquad = "*"
anyhow = "*"
thiserror = "*"
