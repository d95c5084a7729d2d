[package]
name = "nabi"
version = "0.1.0"
edition = "2021"
publish = false

[dependencies]
io-uring = "0.7"
