[package]
name = "krhip8"
version = "0.1.0"
edition = "2021"
publish = false

[dependencies]
libc = "*"
rand = "*"
stack-stack = "*"
termion = "*"
