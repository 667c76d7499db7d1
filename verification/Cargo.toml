[package]
name = "ruin_me_image"
version = "0.1.0"
edition = "2021"
publish = false

[dependencies]
image = { version = "*", default-features = false, features = ["jpeg", "png"] }
rand = "*"
rand_chacha = "*"
