[package]
name = "moo_solver"
version = "0.1.0"
edition = "2021"
publish = false

[dependencies]
web3 = { version = "*", default-features = false }
hex = "*"
serde = { version = "1", features = ["derive"] }
serde_json = "1"
