[package]
name = "mass_fragment_index"
version = "0.1.0"
edition = "2021"
publish = false

[dependencies]
arrow = "*"
parquet = "*"
bytes = "1"
