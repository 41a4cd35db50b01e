[package]
name = "blockchain"
version = "0.1.0"
edition = "2021"
publish = false

[dependencies]
chrono = "0.4"
rand = "0.8"
sha2 = "0.10"
cliclack = "*"
