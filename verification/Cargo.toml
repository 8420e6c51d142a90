[package]
name = "pallet-message-lane"
version = "0.1.0"
edition = "2021"
publish = false

[dependencies]
parity-scale-codec = "=3.7.5"
frame-support = "=49.0.1"
frame-system = "=49.0.0"
