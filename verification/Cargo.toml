[package]
name = "braillify"
version = "0.1.0"
edition = "2021"
publish = false

[dependencies]
image = "*"
palette = "*"
clap = { version = "*", features = ["derive"] }
