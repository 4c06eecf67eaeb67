[package]
name = "clipper_server"
version = "0.1.0"
edition = "2021"
publish = false

[dependencies]
byteorder = "1"
lz4 = "1"
rand = "0.7"
time = "0.1"
libc = "0.2"
