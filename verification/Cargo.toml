[package]
name = "upload_core"
version = "0.1.0"
edition = "2021"
publish = false

[dependencies]
data-encoding = "*"
image = "*"
ring = "*"
