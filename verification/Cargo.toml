[package]
name = "rtasks"
version = "0.1.0"
edition = "2021"
publish = false

[dependencies]
aes-gcm = "0.10"
csv = "1"
hex = "0.4"
rand = "0.8"
sha2 = "0.10"
