[package]
name = "sparse_bitfield"
version = "0.11.0"
edition = "2021"
publish = false

[dependencies]
memory-pager = "*"
