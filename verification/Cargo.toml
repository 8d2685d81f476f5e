[package]
name = "obsidian_vault_mcp"
version = "0.1.0"
edition = "2021"
publish = false

[dependencies]
ptdgrp-markdown = "*"
natord = "*"
ulid = "*"
chrono = "*"
anyhow = "*"
camino = "*"
clap = { version = "*", features = ["derive"] }
serde = { version = "*", features = ["derive"] }
serde_json = "*"
tempfile = "*"
fs2 = "*"
quick-xml = "*"
zip = { version = "*", default-features = false, features = ["deflate"] }
tracing = "*"
tracing-subscriber = { version = "*", features = ["env-filter"] }
pdf-inspector = "*"
