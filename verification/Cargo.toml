[package]
name = "termfest"
version = "0.1.0"
edition = "2021"
publish = false

[dependencies]
unicode-width = "=0.1.14"
term = "=1.2.1"
libc = "=0.2.190"
signal-notify = "=0.1.3"
