[package]
name = "field_challenger"
version = "0.1.0"
edition = "2021"
publish = false

[dependencies]
p3-commit = "*"
p3-dft = "*"
p3-field = "*"
p3-matrix = "*"
p3-maybe-rayon = "*"
p3-symmetric = "*"
p3-util = "*"
tracing = { version = "0.1", default-features = false, features = ["attributes"] }
