[package]
name = "tuitr"
version = "0.1.0"
edition = "2021"
publish = false

[dependencies]
anyhow = "*"
arboard = { version = "*", default-features = false }
crossterm = "*"
dirs = "*"
ignore = "*"
notify = "*"
ratatui = "*"
rusqlite = { version = "*", features = ["bundled"] }
similar = "*"
syntect = { version = "*", default-features = false, features = ["default-fancy"] }
