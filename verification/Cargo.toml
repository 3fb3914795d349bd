[package]
name = "snarky_bn382"
version = "0.1.0"
edition = "2021"
publish = false

[dependencies]
num-bigint = "0.4"
sprs = "0.7"
rand = "0.8"
rand_core = "0.6"
libc = "0.2"
