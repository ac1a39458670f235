[package]
name = "streamson"
version = "0.1.0"
edition = "2021"
publish = false

[dependencies]
regex = "1"
sedregex = "*"
clap = "3"
bytes = "1"
tokio-util = { version = "0.7", features = ["codec"] }
futures = "0.3"
