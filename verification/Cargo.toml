[package]
name = "codex-notify"
version = "0.1.0"
edition = "2021"
publish = false

[dependencies]
anyhow = "*"
base64 = "*"
crossterm = "*"
dirs = "*"
hex = "*"
hmac = "*"
pulldown-cmark = { version = "*", default-features = false }
ratatui = "*"
reqwest = { version = "0.12", default-features = false, features = ["blocking", "rustls-tls"] }
serde = { version = "*", features = ["derive"] }
serde_json = "*"
sha2 = "*"
tempfile = "*"
toml_edit = "*"
