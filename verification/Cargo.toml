[package]
name = "valkeyhttp"
version = "0.1.0"
edition = "2021"
publish = false

[dependencies]
rouille = "*"
once_cell = "*"
valkey-module = "*"
