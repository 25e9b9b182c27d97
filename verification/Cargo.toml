[package]
name = "ircbot"
version = "0.1.0"
edition = "2021"
publish = false

[dependencies]
regex = "1"
openssl = "0.10"
