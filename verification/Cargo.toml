[package]
name = "sessiond"
version = "0.1.0"
edition = "2021"
publish = false

[dependencies]
rand = "0.8"
time = "0.3"
libc = "0.2"
