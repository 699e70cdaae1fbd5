[package]
name = "statormin"
version = "0.1.0"
edition = "2021"
publish = false

[dependencies]
bitintr = "*"
itertools = "*"
rand = "0.8"
chrono = "0.4"
