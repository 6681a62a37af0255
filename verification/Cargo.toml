[package]
name = "powblock"
version = "0.1.0"
edition = "2021"
publish = false

[dependencies]
chrono = "*"
crypto-hash = "*"
