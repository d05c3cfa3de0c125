[package]
name = "uo_login"
version = "0.1.0"
edition = "2021"
publish = false

[dependencies]
byteorder = "1"
async-std = "1"
chrono = { version = "0.4", default-features = false, features = ["clock", "std"] }
crossterm = "*"
