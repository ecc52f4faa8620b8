[package]
name = "logfmt"
version = "0.1.0"
edition = "2021"
publish = false

[dependencies]
serde_json = "1"
yansi = "0.5"
colored_json = "*"
clap = { version = "4", features = ["derive"] }
anyhow = "1"
