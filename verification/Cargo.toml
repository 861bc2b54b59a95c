[package]
name = "isk"
version = "0.1.0"
edition = "2021"
publish = false

[dependencies]
rand = { version = "*", default-features = false }
rand_xoshiro = "*"
