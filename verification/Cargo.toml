[package]
name = "ring_reactor"
version = "0.1.0"
edition = "2021"
publish = false

[dependencies]
io-uring = "0.5"
libc = "0.2"
scoped-tls = "1"
slab = "0.4"
