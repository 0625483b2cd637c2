[package]
name = "npm_utils"
version = "0.6.1"
edition = "2021"
publish = false

[dependencies]
semver = "1"
serde_json = "1"
clap = { version = "4", features = ["derive"] }
indicatif = "0.17"
