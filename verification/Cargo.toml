[package]
name = "imdirdiff"
version = "0.1.0"
edition = "2021"
publish = false

[dependencies]
image = { version = "0.25", default-features = false, features = ["png", "jpeg", "gif", "webp"] }
image-compare = "0.4"
argh = "0.1"
walkdir = "2"
yansi = "1"
