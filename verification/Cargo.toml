[package]
name = "vultan"
version = "0.1.0"
edition = "2021"
publish = false

[dependencies]
anyhow = "1"
chrono = "0.4"
crossterm = "0.25"
glob = "0.3"
rand = "0.8"
regex = "1"
ron = "*"
serde = { version = "1", features = ["derive"] }
syntect = { version = "5", default-features = false, features = ["default-fancy"] }
syntect-tui = "*"
tui = "0.19"
