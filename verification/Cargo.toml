[package]
name = "firefly_mls"
version = "0.1.0"
edition = "2021"
publish = false

[dependencies]
mls-rs = "*"
thiserror = "*"
anyhow = "*"
