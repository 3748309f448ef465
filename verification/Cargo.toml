[package]
name = "commitkit"
version = "0.1.0"
edition = "2021"
publish = false

[dependencies]
anyhow = "*"
chrono = "*"
clap = { version = "*", features = ["derive"] }
console = "*"
dialoguer = "*"
home = "*"
serde = { version = "*", features = ["derive"] }
toml = "*"
