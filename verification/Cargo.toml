[package]
name = "nfp"
version = "0.3.0"
edition = "2021"
publish = false

[dependencies]
togo = "*"
rand = "0.9"
