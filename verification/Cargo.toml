[package]
name = "fop"
version = "0.1.0"
edition = "2021"
publish = false

[dependencies]
ahash = "0.8"
base64 = "0.22"
colored = "2"
dirs = "5"
md5 = "0.7"
once_cell = "1"
owo-colors = "4"
rayon = "1"
regex = "1"
walkdir = "2"
