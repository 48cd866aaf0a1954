[package]
name = "dev_ranking"
version = "0.1.0"
edition = "2021"
publish = false

[dependencies]
rand = "*"
