[package]
name = "splitter"
version = "0.1.0"
edition = "2021"
publish = false

[dependencies]
solana-program = "=1.18.26"
spl-token = { version = "=4.0.3", features = ["no-entrypoint"] }
