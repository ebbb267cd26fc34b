[package]
name = "typeahead"
version = "0.1.0"
edition = "2021"
publish = false

[dependencies]
path-clean = "*"
ratatui = "*"
crossterm = "*"
tui-markdown = "*"
nix = { version = "*", features = ["signal", "fs"] }
lazy_static = "*"
