[package]
name = "oration"
version = "0.1.0"
edition = "2021"
publish = false

[dependencies]
rust-crypto = "*"
sha2 = "*"
bloomfilter = "*"
itertools = "*"
chrono = "*"
petgraph = "*"
