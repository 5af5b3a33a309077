[package]
name = "blockchain"
version = "0.1.0"
edition = "2021"
publish = false

[dependencies]
sled = "0.34"
rust-crypto = "0.2"
bitcoincash-addr = "0.5"
