[package]
name = "leaks"
version = "0.1.0"
edition = "2021"
publish = false

[dependencies]
suffix = "1"
regex = "1"
infer = "*"
clap = { version = "3", features = ["derive"] }
csv = "1"
flate2 = "1"
tar = "0.4"
indicatif = "0.17"
env_logger = "*"
serde = { version = "1", features = ["derive"] }
serde_json = "1"
dotenv = "0.15"
