[package]
name = "header_stats"
version = "0.1.0"
edition = "2021"
publish = false

[dependencies]
parse_wiki_text = "*"
parse_mediawiki_dump = "*"
serde = { version = "1", features = ["derive"] }
serde_json = "1"
