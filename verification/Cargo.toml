[package]
name = "watch"
version = "0.1.0"
edition = "2021"
publish = false

[dependencies]
chrono = "0.4"
clap = { version = "4", features = ["derive"] }
crossterm = "0.28"
similar = "2"
strip-ansi-escapes = "0.2"
unicode-width = "0.2"
