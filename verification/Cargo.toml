[package]
name = "bpond"
version = "0.7.0"
edition = "2021"
publish = false

[dependencies]
ratatui = "0.29"
crossterm = "0.28"
serde_json = "1"
