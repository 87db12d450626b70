[package]
name = "b2_backup"
version = "0.1.0"
edition = "2021"
publish = false

[dependencies]
chrono = "*"
clap = "*"
serde = { version = "*", features = ["derive"] }
serde_yaml = "*"
tempfile = "*"
