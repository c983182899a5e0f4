[package]
name = "elliptic_curve"
version = "0.1.0"
edition = "2021"
publish = false

[dependencies]
num-bigint = "=0.5.1"
num-bigint-dig = { version = "=0.9.1", features = ["prime"] }
