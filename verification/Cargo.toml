[package]
name = "plsa_rs"
version = "0.1.0"
edition = "2021"

[dependencies]
log = "0.4"
ndarray = "0.15"
ndarray-rand = "0.14"
thiserror = "1.0"
