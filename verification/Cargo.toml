[package]
name = "ravix"
version = "0.1.0"
edition = "2021"
publish = false

[dependencies]
similar = "2"
unicode-width = "0.2"
syntect = { version = "5", default-features = false, features = ["default-fancy"] }
git2 = { version = "0.20", default-features = false }
notify = "8"
ratatui = "0.29"
crossterm = "0.28"
