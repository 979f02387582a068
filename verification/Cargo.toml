[package]
name = "clear_coat"
version = "0.1.0"
edition = "2021"
publish = false

[dependencies]
smallvec = "1"
libc = "0.2"
iup-sys = "*"
