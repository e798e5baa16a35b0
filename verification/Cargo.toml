[package]
name = "wikiplain"
version = "0.1.0"
edition = "2021"
publish = false

[dependencies]
anyhow = "1"
arrow = "*"
clap = { version = "4", features = ["derive"] }
parquet = "*"
parse_wiki_text = "*"
