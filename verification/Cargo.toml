[package]
name = "bip21"
version = "0.1.0"
edition = "2021"
publish = false

[dependencies]
bitcoin = "*"
percent-encoding-rfc3986 = "*"
