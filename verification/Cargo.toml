[package]
name = "hashchain_node"
version = "0.1.0"
edition = "2021"
publish = false

[dependencies]
sha2 = "0.10"
hex = "0.4"
data-encoding = "2"
sled = "0.34"
