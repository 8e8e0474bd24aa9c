[package]
name = "web_storage"
version = "0.1.0"
edition = "2021"
publish = false

[dependencies]
url = "2"
core-text = "*"
core-graphics = "*"
