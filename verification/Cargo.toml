[package]
name = "jsoncsv"
version = "0.1.0"
edition = "2021"
publish = false

[dependencies]
json = "*"
flate2 = "*"
zstd = "*"

[dev-dependencies]
escape_string = "*"
