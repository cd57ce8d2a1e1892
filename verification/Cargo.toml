[package]
name = "traveling_rustling"
version = "0.1.0"
edition = "2021"
publish = false

[dependencies]
chrono = "*"
rand = "*"
pyo3 = "*"
