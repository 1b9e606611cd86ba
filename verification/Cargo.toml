[package]
name = "block_cipher"
version = "0.1.0"
edition = "2021"
publish = false

[dependencies]
argon2 = "0.5"
clap = { version = "4", features = ["derive"] }
rand = "0.8"
rand_chacha = "0.3"
