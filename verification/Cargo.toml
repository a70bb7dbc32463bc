[package]
name = "specky"
version = "0.1.0"
edition = "2021"
publish = false

[dependencies]
num-bigfloat = "*"
num-bigint = "*"
colored = "*"
lyneate = "*"
clap = { version = "*", features = ["derive"] }
