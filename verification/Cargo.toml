[package]
name = "gqldiff"
version = "0.1.0"
edition = "2021"
publish = false

[dependencies]
regex-syntax = "0.8"
anyhow = "1"
clap = { version = "4", features = ["derive"] }

[dev-dependencies]
regex = "1"
