[package]
name = "rusty_battleship"
version = "0.1.0"
edition = "2021"
publish = false

[dependencies]
iced = { version = "0.13", default-features = false }
serde = { version = "1", features = ["derive"] }
serde_json = "1"
