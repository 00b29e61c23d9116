[package]
name = "nn_rust_verified"
version = "0.1.0"
edition = "2021"
publish = false

[dependencies]
serde_json = "1"
cuda-core = "0.4"
