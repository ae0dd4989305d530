[package]
name = "mini-lmk"
version = "1.5.0"
edition = "2021"
publish = false

[dependencies]
libc = "0.2"
