[package]
name = "tickbook"
version = "0.1.0"
edition = "2021"
publish = false

[dependencies]
regex = "*"
serde = { version = "*", features = ["derive"] }
serde_json = "*"
csv = "*"
flate2 = "*"
zip = "*"
walkdir = "*"
arrow-array = "*"
parquet = { version = "*", features = ["arrow", "snap"] }
