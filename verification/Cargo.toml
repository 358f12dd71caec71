[package]
name = "cmake_tui"
version = "0.1.0"
edition = "2021"
publish = false

[dependencies]
regex = "1"
ratatui = "0.29"
color-eyre = "0.6"
clap = { version = "4", features = ["derive"] }
