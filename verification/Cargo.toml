[package]
name = "newton-faer"
version = "0.1.0"
edition = "2021"
publish = false

[dependencies]
faer = "0.23"
faer-traits = "0.23"
dyn-stack = "0.13"
error-stack = "0.5"
num-traits = "0.2"
rayon = "1"
