[package]
name = "selestial"
version = "0.1.0"
edition = "2021"
publish = false

[dependencies]
ahash = "0.8"
dashmap = "6"
fastrand = "2"
nalgebra = "0.33"
rayon = "1"
tracing = "0.1"
tracing-subscriber = "0.3"
