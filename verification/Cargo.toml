[package]
name = "nbtexport"
version = "0.1.0"
edition = "2021"
publish = false

[dependencies]
bytes = "*"
crab_nbt = "*"
crc32fast = "*"
flate2 = "*"
pyo3 = "*"
rayon = "*"
serde_json = "*"
