[package]
name = "gprs"
version = "0.1.0"
edition = "2021"
publish = false

[dependencies]
nalgebra = { version = "0.31", default-features = false, features = ["std"] }
rayon = "1"
