[package]
name = "docker_pane"
version = "0.1.0"
edition = "2021"
publish = false

[dependencies]
serde_json = "*"
rust-fuzzy-search = "*"
zellij-tile = "*"
