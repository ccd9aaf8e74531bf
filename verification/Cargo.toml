[package]
name = "guarded_transfer"
version = "0.1.0"
edition = "2021"
publish = false

[dependencies]
fs2 = "*"
