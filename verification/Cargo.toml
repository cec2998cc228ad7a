[package]
name = "v8_compat"
version = "0.1.0"
edition = "2021"
publish = false

[dependencies]
rquickjs = "*"
once_cell = "1"
parking_lot = "0.12"
