[package]
name = "nbodysimulation"
version = "0.1.0"
edition = "2021"
publish = false

[dependencies]
nalgebra = "*"
rand = "*"
serde = { version = "*", features = ["derive"] }
serde_json = "*"
