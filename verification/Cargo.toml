[package]
name = "ss_rust"
version = "0.1.0"
edition = "2021"
publish = false

[dependencies]
bytes = "*"
trust-dns-resolver = "*"
