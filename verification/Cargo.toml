[package]
name = "findshlibs"
version = "0.10.2"
edition = "2021"
publish = false

[dependencies]
libc = "0.2"
