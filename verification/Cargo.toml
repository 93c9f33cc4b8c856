[package]
name = "tui_logic"
version = "0.1.0"
edition = "2021"
publish = false

[dependencies]
toml = "=1.1.8"
toml_edit = "*"
unicode-width = "=0.2.3"
ratatui = "=0.30.2"
crossterm = "=0.29.0"
syntect = "=5.3.0"
two-face = "=0.5.2"

[dev-dependencies]
tempfile = "=3.27.0"
