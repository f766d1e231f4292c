[package]
name = "yutu"
version = "0.1.0"
edition = "2021"
publish = false

[dependencies]
annotate-snippets = "0.12"
anstream = "0.6"
clap = "4"
hexf-parse = "0.2"
rayon = "1"
toml = "0.9"
unicode-width = "0.2"
