[package]
name = "git_history_explorer"
version = "0.1.0"
edition = "2021"
publish = false

[dependencies]
chrono = "*"
clap = { version = "*", features = ["derive"] }
crossterm = "*"
git2 = "*"
ratatui = "*"
