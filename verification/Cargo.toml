[package]
name = "slot_algorithm"
version = "0.1.0"
edition = "2021"
publish = false

[dependencies]
rand = "0.8"
serde = { version = "1", features = ["derive"] }
validator = { version = "*", features = ["derive"] }
