[package]
name = "tui_tree_widget"
version = "0.1.0"
edition = "2021"
publish = false

[dependencies]
ratatui = "0.25"
unicode-width = "*"
