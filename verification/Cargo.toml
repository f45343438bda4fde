[package]
name = "polars"
version = "0.1.0"
edition = "2021"
publish = false

[dependencies]
csv = "1"
csv-index = "0.1"
