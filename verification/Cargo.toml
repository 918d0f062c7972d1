[package]
name = "nm_parse"
version = "0.1.0"
edition = "2021"
publish = false

[dependencies]
roxmltree = "*"
