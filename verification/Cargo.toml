[package]
name = "dotignore"
version = "0.1.0"
edition = "2021"
publish = false

[dependencies]
regex = "1"
anyhow = "1"
chrono = "0.4"
clap = { version = "4", features = ["derive"] }
thiserror = "1"
walkdir = "2"
