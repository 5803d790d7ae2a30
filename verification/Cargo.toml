[package]
name = "alcom-rs"
version = "0.1.0"
edition = "2021"
publish = false

[dependencies]
custom_error = "*"
extabs = "*"
structopt = "*"
uuid = { version = "*", features = ["v4"] }
