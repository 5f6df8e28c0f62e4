[package]
name = "channel_audit"
version = "0.1.0"
edition = "2021"
publish = false

[dependencies]
anyhow = "1"
bitcoin = "0.32"
ldk-node = "*"
lightning = "*"
rand = "0.8"
