[package]
name = "am"
version = "0.0.1"
edition = "2021"
publish = false

[dependencies]
anyhow = "1"
clap = { version = "4", features = ["derive"] }
comfy-table = "7"
dialoguer = "0.12"
shellexpand = "3"

[dev-dependencies]
regex = "1"
