[package]
name = "zobristhash_set"
version = "0.1.0"
edition = "2021"
publish = false

[dependencies]
rustc-hash = "*"

[dev-dependencies]
rand = "0.8"
