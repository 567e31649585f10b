[package]
name = "blockcrypt"
version = "0.1.0"
edition = "2021"

[dependencies]
aes = "0.7"
clap = { version = "3", features = ["derive"] }
hex = "0.4"
