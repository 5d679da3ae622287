[package]
name = "chip8"
version = "0.1.0"
edition = "2021"
publish = false

[dependencies]
rand = "0.7"
lazy_static = "1"
spin = "0.5"
volatile = "0.2"
x86_64 = { version = "0.15", default-features = false, features = ["instructions"] }
