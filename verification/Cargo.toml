[package]
name = "plasma"
version = "0.1.0"
edition = "2021"
publish = false

[dependencies]
rust-crypto = "0.2"
pairing_ce = "*"
bellman_ce = "*"
rand = "0.4"
