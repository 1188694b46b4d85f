[package]
name = "verbump"
version = "0.1.0"
edition = "2021"
publish = false

[dependencies]
clap = "=2.34.0"
regex = "=1.13.1"
uuid = { version = "=1.29.0", features = ["v4"] }
