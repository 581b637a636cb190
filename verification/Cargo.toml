[package]
name = "beancount_budget_tool"
version = "0.1.0"
edition = "2021"
publish = false

[dependencies]
rust_decimal = { version = "1", features = ["serde"] }
chrono = "0.4"
unicode-width = "*"
clap = { version = "4", features = ["derive"] }
serde = { version = "1", features = ["derive"] }
serde_yaml = "0.9"
toml = "*"
crossterm = "*"
ratatui = "*"
