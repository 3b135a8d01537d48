[package]
name = "kcomprs"
version = "0.1.0"
edition = "2021"
publish = false

[dependencies]
clap = { version = "4", features = ["derive"] }
image = { version = "0.25", default-features = false, features = ["png", "jpeg", "gif", "bmp", "webp"] }
num_cpus = "1"
rand = "0.9"
tracing = "0.1"
tracing-subscriber = "0.3"
