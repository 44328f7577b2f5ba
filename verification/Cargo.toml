[package]
name = "loris"
version = "0.1.0"
edition = "2021"
publish = false

[dependencies]
failure = "=0.1.8"
users = "=0.7.0"
