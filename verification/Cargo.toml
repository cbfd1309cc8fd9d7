[package]
name = "typ-app"
version = "0.1.0"
edition = "2021"
publish = false

[dependencies]
unicode-segmentation = "1"
unicode-width = "*"
ratatui = "*"
crossterm = "*"
anyhow = "1"
serde_json = "1"
toml = "*"
