[package]
name = "ascii"
version = "1.0.0"
edition = "2021"
publish = false

[dependencies]
memchr = "2"
libc = "0.2"
serde = "1"
