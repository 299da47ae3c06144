[package]
name = "hls_parser"
version = "0.1.0"
edition = "2021"
publish = false

[dependencies]
reqwest = { version = "0.11", features = ["blocking"] }
thiserror = "1"
