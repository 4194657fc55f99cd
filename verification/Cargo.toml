[package]
name = "kstd"
version = "0.1.0"
edition = "2021"

[dependencies]
derive_more = "0.99"
spin = "0.9"
