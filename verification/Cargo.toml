[package]
name = "dsa-cli"
version = "0.1.0"
edition = "2021"
publish = false

[dependencies]
rand = "0.8"
itertools = "0.10"
clap = "3"
serde = { version = "1", features = ["derive"] }
serde_json = "1"
tokio = { version = "1", features = ["rt", "rt-multi-thread", "fs", "io-util", "sync"] }
futures = "0.3"
substring = "1"
serenity = { version = "0.10", features = ["unstable_discord_api"] }
