[package]
name = "kete"
version = "0.1.0"
edition = "2021"
publish = false

[dependencies]
crossbeam = "0.8"
nalgebra = "*"
pyo3 = { version = "*", features = ["abi3-py39"] }
rand = "0.9"
rand_distr = "0.5"
rayon = "1"
