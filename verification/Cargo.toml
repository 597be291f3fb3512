[package]
name = "artilun_auth"
version = "0.1.0"
edition = "2021"
publish = false

[dependencies]
rust-argon2 = "*"
jsonwebtoken = "9"
rand = "0.8"
