[package]
name = "ufo_subset"
version = "0.1.0"
edition = "2021"
publish = false

[dependencies]
norad = "*"
