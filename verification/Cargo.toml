[package]
name = "show_renamer"
version = "0.1.0"
edition = "2021"
publish = false

[dependencies]
regex = "1"
clap = { version = "3.2", features = ["derive"] }
tmdb = "3"
