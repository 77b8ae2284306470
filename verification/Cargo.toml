[package]
name = "rmosh"
version = "0.1.0"
edition = "2021"
publish = false

[dependencies]
mimalloc = { version = "0.1", default-features = false }
num-derive = "0.4"
