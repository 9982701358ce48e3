[package]
name = "cub_diff"
version = "0.1.0"
edition = "2021"
publish = false

[dependencies]
crypto-hash = "=0.3.4"
inflate = "=0.4.5"
