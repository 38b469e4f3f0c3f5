[package]
name = "loglyzer"
version = "0.1.0"
edition = "2021"
publish = false

[dependencies]
clap = { version = "*", features = ["derive"] }
prettytable-rs = "*"

[dev-dependencies]
serde_json = "*"
