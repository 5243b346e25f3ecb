[package]
name = "validity_bitmap"
version = "0.1.0"
edition = "2021"
publish = false

[dependencies]
arrow-buffer = "*"
arrow-data = "*"
arrow-schema = "*"
