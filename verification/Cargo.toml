[package]
name = "eta_buffer"
version = "0.1.0"
edition = "2021"
publish = false

[dependencies]
xi-rope = "*"
syntect = { version = "*", default-features = false, features = ["default-fancy"] }
