[package]
name = "ducky_learn"
version = "0.1.0"
edition = "2021"
publish = false

[dependencies]
ndarray = "*"
ndarray-rand = "*"
