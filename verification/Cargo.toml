[package]
name = "gauss_seidel"
version = "0.1.0"
edition = "2021"
publish = false

[dependencies]
rust_decimal = "*"
nalgebra = "*"
serde = { version = "*", features = ["derive"] }
serde_json = "*"
