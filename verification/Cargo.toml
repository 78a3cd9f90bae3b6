[package]
name = "xtop_widgets"
version = "0.1.0"
edition = "2021"
publish = false

[dependencies]
ratatui = { version = "=0.29.0", default-features = false }
serde_json = "1"
