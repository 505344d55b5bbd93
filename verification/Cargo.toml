[package]
name = "gutenberg"
version = "0.1.0"
edition = "2021"
publish = false

[dependencies]
slug = "*"
globset = "*"
pulldown-cmark = "*"
toml = "*"
serde = { version = "*", features = ["derive"] }
tera = "*"
clap = { version = "*", features = ["derive"] }
notify = "*"
walkdir = "*"
filetime = "*"
