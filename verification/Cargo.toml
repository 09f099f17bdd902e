[package]
name = "git_starter_rust"
version = "0.1.0"
edition = "2021"
publish = false

[dependencies]
sha1 = "0.10"
hex = "0.4"
flate2 = "1"
anyhow = "1"
clap = { version = "4", features = ["derive"] }
