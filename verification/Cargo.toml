[package]
name = "rust_dedup"
version = "0.1.0"
edition = "2021"
publish = false

[dependencies]
sha2 = "*"
clap = { version = "4", features = ["derive"] }
colored = "2"
walkdir = "2"
