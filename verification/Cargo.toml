[package]
name = "marqi"
version = "0.1.0"
edition = "2021"
publish = false

[dependencies]
anyhow = "1"
arboard = { version = "3", default-features = false }
comrak = { version = "*", default-features = false }
crossterm = "*"
directories = "*"
ratatui = "*"
regex = "1"
ropey = "1"
serde = { version = "1", features = ["derive"] }
signal-hook = "*"
syntect = { version = "5", default-features = false, features = ["default-fancy"] }
toml = "*"
trash = "*"
unicode-segmentation = "1"
unicode-width = "*"
