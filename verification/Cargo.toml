[package]
name = "stripconf"
version = "0.1.0"
edition = "2021"
publish = false

[dependencies]
fe2o3-crust = "*"
