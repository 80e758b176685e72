[package]
name = "crystal_kmc"
version = "0.1.0"
edition = "2021"
publish = false

[dependencies]
rand = "0.9"
rand_chacha = "0.9"
evalexpr = "*"
chrono = "*"
