[package]
name = "nkinematics"
version = "0.1.0"
edition = "2021"
publish = false

[dependencies]
noisy_float = "*"
num-traits = "*"

[dev-dependencies]
nalgebra = "*"
