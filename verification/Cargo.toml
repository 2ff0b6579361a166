[package]
name = "diskspice_scanner"
version = "0.1.0"
edition = "2021"
publish = false

[dependencies]
crossbeam-channel = "*"

[dev-dependencies]
serde_json = "*"
