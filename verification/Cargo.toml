[package]
name = "logup"
version = "0.1.0"
edition = "2021"
publish = false

[dependencies]
async-trait = "*"
aws-config = "*"
aws-sdk-cloudwatchlogs = "*"
clap = { version = "*", features = ["derive", "env"] }
hostname = "*"
reqwest = { version = "*", default-features = false, features = ["json", "rustls-tls"] }
serde_json = "*"
tokio = { version = "*", features = ["rt", "macros", "io-std", "io-util", "sync", "time", "fs"] }
