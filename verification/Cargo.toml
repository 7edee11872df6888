[package]
name = "nntp-rs"
version = "0.1.0"
edition = "2021"
publish = false

[dependencies]
bytes = "=1.12.1"
encoding_rs = "=0.8.44"
mail-parser = "=0.11.9"
async-trait = "=0.1.92"
tokio = { version = "1", features = ["net", "io-util"] }
async-std = "1"
smol = "2"
