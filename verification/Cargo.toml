[package]
name = "calc"
version = "0.1.0"
edition = "2021"
publish = false

[dependencies]
rayon = "1"
colored = "2"
lazy_static = "1"
