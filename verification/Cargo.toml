[package]
name = "dotlink"
version = "0.1.0"
edition = "2021"
publish = false

[dependencies]
capturing-glob = "*"
same-file = "*"
indicatif = "*"
inquire = "*"
