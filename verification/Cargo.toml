[package]
name = "dfdx"
version = "0.1.0"
edition = "2021"
publish = false

[dependencies]
num-traits = "0.2"
rand = "0.8"
zip = { version = "0.6", default-features = false }
