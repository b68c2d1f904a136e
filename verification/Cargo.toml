[package]
name = "qudit_gates"
version = "0.1.0"
edition = "2021"
publish = false

[dependencies]
qudit-core = "=0.1.0"
qudit-expr = "=0.1.0"
