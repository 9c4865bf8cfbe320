[package]
name = "vectorize"
version = "0.1.0"
edition = "2021"
publish = false

[dependencies]
vtracer = { version = "0.6", default-features = false }
visioncortex = "0.8"
image = "0.23"
serde = { version = "1", features = ["derive"] }
