[package]
name = "mdsh"
version = "0.1.0"
edition = "2021"
publish = false

[dependencies]
shellexpand = "*"
clap = { version = "*", features = ["derive"] }
