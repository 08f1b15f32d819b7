[package]
name = "tisu"
version = "0.1.0"
edition = "2021"
publish = false

[dependencies]
rand = "*"
tiled = "*"
xml-rs = "*"
image = "*"
clap = { version = "*", features = ["derive"] }
