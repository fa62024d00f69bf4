[package]
name = "timothy"
version = "0.1.0"
edition = "2021"
publish = false

[dependencies]
ordered-float = "*"

[dev-dependencies]
ordered-float = "*"
