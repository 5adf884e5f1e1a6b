[package]
name = "edgevec"
version = "0.4.0"
edition = "2021"
publish = false

[dependencies]
bitvec = "1"
crc32fast = "1"
rand = "0.8"
rand_chacha = "0.3"
thiserror = "1"
