[package]
name = "pytest_diff_core"
version = "0.1.0"
edition = "2021"
publish = false

[dependencies]
blake3 = "1"
crc32fast = "1"
dashmap = "*"
rayon = "1"
rustpython-parser = "*"
rustpython-parser-core = "*"
walkdir = "2"
