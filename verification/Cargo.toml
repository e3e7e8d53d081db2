[package]
name = "git_wt"
version = "0.1.0"
edition = "2021"
publish = false

[dependencies]
nucleo-matcher = "*"
clap = { version = "*", features = ["derive"] }
color-eyre = "*"
crossterm = "*"
inquire = "*"
