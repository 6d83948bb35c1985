[package]
name = "cachecore"
version = "0.1.0"
edition = "2021"
publish = false

[dependencies]
libflate = "*"
bzip2-rs = "*"
memchr = "*"
sqlite = "*"
