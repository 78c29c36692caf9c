[package]
name = "connection_core"
version = "0.1.0"
edition = "2021"
publish = false

[dependencies]
bytes = "1"
dirs = "*"
get_if_addrs = "*"
