[package]
name = "kzg"
version = "0.1.0"
edition = "2021"
publish = false

[dependencies]
blstrs = "=0.7.1"
ff = "=0.13.1"
group = "=0.13.0"
pairing = "=0.23.0"
