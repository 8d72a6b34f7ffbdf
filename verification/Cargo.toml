[package]
name = "mda"
version = "0.1.0"
edition = "2021"
publish = false

[dependencies]
charset = "0.1"
gethostname = "0.2"
libc = "0.2"
memchr = "2"
regex = "1"
