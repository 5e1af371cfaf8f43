[package]
name = "sql_param"
version = "0.1.0"
edition = "2021"
publish = false

[dependencies]
arboard = "*"
clap = { version = "4", features = ["derive"] }
crossterm = "0.28"
ratatui = "0.29"
tui-textarea = "0.7"
