[package]
name = "build_sweep"
version = "0.1.0"
edition = "2021"
publish = false

[dependencies]
anyhow = "*"
chrono = "*"
clap = { version = "*", features = ["derive"] }
fs_extra = "*"
walkdir = "*"
