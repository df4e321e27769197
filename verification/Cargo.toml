[package]
name = "resampling"
version = "0.1.0"
edition = "2021"
publish = false

[dependencies]
rand = "*"

[dev-dependencies]
rand_xoshiro = "*"
