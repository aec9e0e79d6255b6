[package]
name = "hexsky"
version = "0.1.0"
edition = "2021"
publish = false

[dependencies]
wyrand = "*"
rand = "*"
