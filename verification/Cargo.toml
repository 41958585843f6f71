[package]
name = "karaoke_core"
version = "0.1.0"
edition = "2021"
publish = false

[dependencies]
flate2 = "1"
md-5 = "*"
encoding = "*"
