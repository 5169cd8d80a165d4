[package]
name = "aapak"
version = "0.1.0"
edition = "2021"
publish = false

[dependencies]
aes = "0.7"
block-modes = "0.8"
block-padding = "0.2"
chksum-md5 = "*"
chrono = "*"
