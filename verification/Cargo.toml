[package]
name = "fractalgen"
version = "0.1.0"
edition = "2021"
publish = false

[dependencies]
anyhow = "1"
clap = { version = "3", features = ["derive"] }
png = "0.16"
rayon = "1"
rgb = "0.8"
