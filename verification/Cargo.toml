[package]
name = "restream"
version = "0.1.0"
edition = "2021"
publish = false

[dependencies]
anyhow = "1"
clap = { version = "*", features = ["derive", "cargo"] }
lz-fear = "*"
