[package]
name = "sokoban"
version = "0.1.0"
edition = "2021"
publish = false

[dependencies]
cursive = { version = "0.20", default-features = false, features = ["crossterm-backend"] }
