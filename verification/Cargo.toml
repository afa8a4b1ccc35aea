[package]
name = "fe_levels"
version = "0.1.0"
edition = "2021"
publish = false

[dependencies]
strsim = "0.10"
