[package]
name = "rust_raytracing"
version = "0.1.0"
edition = "2021"
publish = false

[dependencies]
image = "0.24"
rand = "0.8"
rayon = "1"
