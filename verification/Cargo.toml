[package]
name = "catatau"
version = "0.1.0"
edition = "2021"
publish = false

[dependencies]
zip = "*"
quick-xml = "*"
html2text = "*"
lru = "*"
regex = "*"
clap = { version = "*", features = ["derive"] }
crossterm = "*"
ratatui = "*"
tracing = "*"
tracing-subscriber = "*"
