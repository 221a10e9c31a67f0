[package]
name = "ttail"
version = "0.3.2"
edition = "2021"
publish = false

[dependencies]
libc = "0.2"
signal-hook = "0.3"
