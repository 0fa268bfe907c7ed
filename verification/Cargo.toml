[package]
name = "wsq"
version = "0.1.0"
edition = "2021"
publish = false

[dependencies]
ws = "*"
serde = "*"
serde_json = "*"
