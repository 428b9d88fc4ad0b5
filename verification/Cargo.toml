[package]
name = "veritool-core"
version = "0.1.0"
edition = "2021"
publish = false

[dependencies]
indexmap = "2"
sv-parser = "0.13"
clap = { version = "4", features = ["derive"] }
comfy-table = "7"
serde = { version = "1", features = ["derive"] }
serde_json = "1"
anyhow = "1"
csv = "1"
