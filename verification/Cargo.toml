[package]
name = "map_info"
version = "0.2.0"
edition = "2021"
publish = false

[dependencies]
anyhow = "=1.0.104"
arboard = "=3.7.0"
color-eyre = "=0.6.5"
crossterm = "=0.29.0"
indexmap = "=2.14.2"
ratatui = { version = "=0.30.2", features = ["unstable-rendered-line-info"] }
regex = "=1.13.1"
strsim = "=0.11.1"
textwrap = "=0.16.4"
