[package]
name = "forum_core"
version = "0.1.0"
edition = "2021"
publish = false

[dependencies]
chrono = "0.4"
data-encoding = "2"
hex = "0.4"
pbkdf2 = { version = "0.12", features = ["simple"] }
rand = "0.8"
rand_chacha = "0.3"
ring = "0.17"
