[package]
name = "aptos_container"
version = "0.1.0"
edition = "2021"
publish = false

[dependencies]
anyhow = "1"
base64 = "0.22"
log = "0.4"
rand = "0.9"
regex = "1"
testcontainers = "*"
tokio = { version = "1", features = ["sync", "rt", "rt-multi-thread", "macros", "time", "io-util"] }
walkdir = "2"
