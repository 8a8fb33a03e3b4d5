[package]
name = "sample_organizer"
version = "0.1.0"
edition = "2021"
publish = false

[dependencies]
natord = "1.0"
regex = "1"
walkdir = "2"
toml = "0.8"
serde = { version = "1", features = ["derive"] }
clap = { version = "4", features = ["derive"] }
