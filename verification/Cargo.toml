[package]
name = "lam"
version = "0.1.0"
edition = "2021"
publish = false

[dependencies]
ahash = "0.8"
archery = "1"
lazy_static = "1"
mimalloc = "0.1"
pest = "2"
pest_derive = "2"
rpds = "1"
