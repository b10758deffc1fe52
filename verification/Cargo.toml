[package]
name = "linfa_bayes"
version = "0.1.0"
edition = "2021"
publish = false

[dependencies]
ndarray = "*"
