[package]
name = "wn3"
version = "0.1.0"
edition = "2021"
publish = false

[dependencies]
ahash = "*"
anyhow = "*"
bytes = "*"
clap = { version = "*", features = ["derive"] }
ego-tree = "*"
log = "*"
markup5ever = "*"
regex-lite = "*"
rusqlite = { version = "*", features = ["bundled"] }
scraper = "*"
serde = { version = "*", features = ["derive"] }
time = { version = "*", features = ["formatting"] }
toml = "*"
ureq = "*"
url = "*"
zip = { version = "*", default-features = false, features = ["deflate"] }
