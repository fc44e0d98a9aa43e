[package]
name = "qmc_crypto"
version = "0.1.0"
edition = "2021"
publish = false

[dependencies]
base64 = "0.22"
md-5 = "0.10"
anyhow = "1"
clap = { version = "4", features = ["derive"] }
