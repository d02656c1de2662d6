[package]
name = "enka_good"
version = "0.1.0"
edition = "2021"
publish = false

[dependencies]
anyhow = "1"
clap = { version = "4", features = ["derive"] }
minreq = { version = "2", features = ["json-using-serde"] }
serde = { version = "1", features = ["derive"] }
serde_json = "1"
