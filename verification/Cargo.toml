[package]
name = "charton"
version = "0.1.0"
edition = "2021"
publish = false

[dependencies]
ahash = "0.8"
time = { version = "0.3", features = ["formatting"] }
arrow = { version = "*", default-features = false }
