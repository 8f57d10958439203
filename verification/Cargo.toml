[package]
name = "svnui"
version = "0.1.0"
edition = "2021"
publish = false

[dependencies]
unicode-width = "0.2"
fuzzy-matcher = "0.3"
ratatui = "0.29"
crossterm = "0.28"
tui-textarea = "0.7"
clap = { version = "4", features = ["derive"] }
crossbeam-channel = "0.5"
