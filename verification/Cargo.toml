[package]
name = "rxplain"
version = "0.1.0"
edition = "2021"
publish = false

[dependencies]
anyhow = "1"
clap = { version = "4", features = ["derive"] }
colored = "2"
crossterm = "0.28"
indicatif = "0.17"
ratatui = "0.29"
serde = { version = "1", features = ["derive"] }
serde_json = "1"
