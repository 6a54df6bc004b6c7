[package]
name = "flax"
version = "0.1.0"
edition = "2021"
publish = false

[dependencies]
smallvec = "1"
itertools = "*"
anyhow = "1"
rayon = "1"
