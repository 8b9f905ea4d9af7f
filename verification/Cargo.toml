[package]
name = "cxlalloc"
version = "0.1.0"
edition = "2021"
publish = false

[dependencies]
arrayvec = "=0.7.8"
bon = "=3.10.3"
libc = "=0.2.191"
log = "=0.4.35"

[dev-dependencies]
ribbit = "=0.2.1"
