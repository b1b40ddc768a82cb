[package]
name = "zksnark"
version = "0.1.0"
edition = "2021"
publish = false

[dependencies]
lambdaworks-math = "*"
rand = "0.8"
