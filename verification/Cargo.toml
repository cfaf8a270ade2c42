[package]
name = "feoray"
version = "0.1.0"
edition = "2021"
publish = false

[dependencies]
approx = "=0.5.1"
nalgebra = { version = "=0.35.0", default-features = false, features = ["std"] }
image = { version = "=0.25.10", default-features = false, features = ["jpeg", "png"] }
noise = { version = "=0.9.0", default-features = false }
