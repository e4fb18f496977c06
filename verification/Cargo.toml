[package]
name = "dsym_batch"
version = "0.1.0"
edition = "2021"
publish = false

[dependencies]
zip = "*"
uuid = "*"
walkdir = "*"
clap = "*"
indicatif = "*"
