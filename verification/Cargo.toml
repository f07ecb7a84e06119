[package]
name = "pq"
version = "0.1.0"
edition = "2021"
publish = false

[dependencies]
pyo3 = { version = "0.22", features = ["auto-initialize"] }
rustpython-parser = "*"
