[package]
name = "circuit_edit"
version = "0.1.0"
edition = "2021"
publish = false

[dependencies]
gsim = "*"
serde = { version = "*", features = ["derive"] }
serde_json = "*"
