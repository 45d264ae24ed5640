[package]
name = "ls-improved"
version = "0.1.0"
edition = "2021"
publish = false

[dependencies]
anyhow = "1"
async-std = "1"
clap = "2"
regex = "1"
serde = { version = "1", features = ["derive"] }
thiserror = "1"
toml = "0.5"
unicode-width = "0.1"
