[package]
name = "tremor_runtime"
version = "0.1.0"
edition = "2021"
publish = false

[dependencies]
actix = "*"
async-std = "*"
async-trait = "*"
crossbeam-channel = "*"
halfbrown = "*"
serde = { version = "*", features = ["derive"] }
serde_yaml = "*"
simd-json = "*"
