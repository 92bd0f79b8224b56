[package]
name = "today"
version = "0.1.0"
edition = "2021"
publish = false

[dependencies]
chrono = "0.4"
clap = { version = "4", features = ["derive"] }
owo-colors = "*"
regex = "1"
walkdir = "2"
