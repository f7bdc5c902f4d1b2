[package]
name = "errfmt"
version = "0.1.0"
edition = "2021"
publish = false

[dependencies]
tracing-error = "*"
