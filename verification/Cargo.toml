[package]
name = "wzed"
version = "0.1.1"
edition = "2021"
publish = false

[dependencies]
similar = "2"
regex = "1"
encoding_rs = "0.8"
chardetng = "0.1"
chrono = "0.4"
serde = { version = "1", features = ["derive"] }
serde_json = "1"
anyhow = "1"
dirs = "*"
