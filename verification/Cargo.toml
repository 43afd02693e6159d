[package]
name = "pallet_dex"
version = "0.1.0"
edition = "2021"
publish = false

[dependencies]
num-integer = "0.1"
sp-arithmetic = "*"
sp-runtime = "*"
frame-support = "*"
frame-system = "*"
parity-scale-codec = { version = "3", features = ["derive"] }
scale-info = { version = "2", features = ["derive"] }
