[package]
name = "blockdedup"
version = "0.1.0"
edition = "2021"
publish = false

[dependencies]
crc = "*"
argh = "*"
errno = "*"
indicatif = "*"
num-format = { version = "*", features = ["with-system-locale"] }
