[package]
name = "static_atom"
version = "0.1.0"
edition = "2021"
publish = false

[dependencies]
try_from = "*"
