[package]
name = "ratatetris"
version = "0.1.0"
edition = "2021"
publish = false

[dependencies]
rand = "0.9"
ratatui = "*"
crossterm = "*"
color-eyre = "*"
cpal = "*"
fundsp = "*"
midly = "*"
anyhow = "*"
assert_no_alloc = "*"
