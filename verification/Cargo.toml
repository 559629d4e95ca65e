[package]
name = "bitcrust_core"
version = "0.1.0"
edition = "2021"
publish = false

[dependencies]
byteorder = "1"
itertools = "0.13"
nom = "3"
sha2 = "0.10"
