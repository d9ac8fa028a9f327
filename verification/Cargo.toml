[package]
name = "parts"
version = "0.1.0"
edition = "2021"
publish = false

[dependencies]
crc = "*"
uuid = { version = "*", features = ["v4"] }
