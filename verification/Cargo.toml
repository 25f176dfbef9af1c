[package]
name = "filt-rs"
version = "0.1.0"
edition = "2021"
publish = false

[dependencies]
regex = "1"
human-errors = "*"
chrono = "0.4"
secrecy = "0.10"
serde = "1"
