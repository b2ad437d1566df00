[package]
name = "wineenv"
version = "0.1.0"
edition = "2021"
publish = false

[dependencies]
toml = { version = "0.8", features = ["preserve_order"] }
nanoid = "0.4"
clap = { version = "4", features = ["derive"] }
directories = "6"
anyhow = "1"
