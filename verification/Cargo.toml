[package]
name = "fix_affix"
version = "0.2.0"
edition = "2021"
publish = false

[dependencies]
anyhow = "1"
chrono = "0.4"
clap = { version = "4", features = ["derive", "cargo"] }
serde = { version = "1", features = ["derive"] }
toml = "0.8"
