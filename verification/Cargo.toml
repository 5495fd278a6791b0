[package]
name = "solfhe"
version = "0.1.0"
edition = "2021"
publish = false

[dependencies]
tfhe = { version = "*", features = ["shortint"] }
bincode = "1"
