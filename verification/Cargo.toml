[package]
name = "bluerdma_rust"
version = "0.1.0"
edition = "2021"
publish = false

[dependencies]
libc = "0.2"
log = "0.4"
pagemap = "0.1"
