[package]
name = "s3tunnel"
version = "0.1.0"
edition = "2021"
publish = false

[dependencies]
aws-sdk-rust = "*"
clap = { version = "2", default-features = false }
log = "0.4"
log4rs = "1"
rustyline = "9"
serde = { version = "1", features = ["derive"] }
serde_derive = "1"
serde_yaml = "0.9"
