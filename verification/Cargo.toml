[package]
name = "json_marshal"
version = "0.1.0"
edition = "2021"
publish = false

[dependencies]
pyo3-ffi = "*"
serde = "1"
zip = { version = "2", default-features = false, features = ["zstd"] }
