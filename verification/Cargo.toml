[package]
name = "galactic_tamer"
version = "0.1.0"
edition = "2021"

[dependencies]
humansize = "*"
sysinfo = "*"
crossterm = "*"
ratatui = "*"
clap = { version = "*", features = ["derive"] }
