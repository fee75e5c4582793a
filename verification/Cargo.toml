[package]
name = "csift"
version = "0.1.0"
edition = "2021"
publish = false

[dependencies]
anyhow = "*"
jiff = "*"
memchr = "*"
rayon = "*"
regex = "*"
regex-syntax = "*"
serde_json = "*"
