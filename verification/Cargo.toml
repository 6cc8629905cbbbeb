[package]
name = "expression"
version = "0.1.0"
edition = "2021"
publish = false

[dependencies]
rand = "*"
chrono = "*"
serde = { version = "*", features = ["derive"] }
toml = "*"
dirs = "*"
shellexpand = "*"
ctrlc = "*"
log2 = "*"
colored = "*"
