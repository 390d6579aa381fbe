[package]
name = "ocdiff"
version = "0.1.0"
edition = "2021"
publish = false

[dependencies]
ansi_term = "0.12"
html-escape = "0.2"
levenshtein = "1"
pyo3 = { version = "0.20", features = ["extension-module", "abi3-py38"] }
similar = "2"
unicode-width = "0.1"
