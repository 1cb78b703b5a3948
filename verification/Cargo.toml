[package]
name = "wishy"
version = "0.1.0"
edition = "2021"
publish = false

[dependencies]
spin = "0.9"
