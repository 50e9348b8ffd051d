[package]
name = "fluxfox"
version = "0.1.0"
edition = "2021"
publish = false

[dependencies]
bit-vec = "*"
sha1_smol = "*"
