[package]
name = "neodos-toolkit"
version = "0.1.0"
edition = "2021"
publish = false

[dependencies]
dashmap = "*"
lsp-types = "*"
parking_lot = "*"
serde_json = "*"
url = "*"
walkdir = "*"
rayon = "*"
crossbeam = "*"
log = "*"
env_logger = "*"
