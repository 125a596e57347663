[package]
name = "present24_mitm"
version = "0.1.0"
edition = "2021"
publish = false

[dependencies]
rayon = "*"
clap = { version = "*", features = ["derive"] }
