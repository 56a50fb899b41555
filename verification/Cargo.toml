[package]
name = "arc_isle"
version = "0.1.0"
edition = "2021"
publish = false

[dependencies]
yaml-rust = "*"
clap = { version = "*", features = ["derive"] }
crossterm = "*"
either = "*"
