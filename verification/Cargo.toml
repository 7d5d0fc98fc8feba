[package]
name = "md2ms"
version = "0.1.0"
edition = "2021"
publish = false

[dependencies]
pulldown-cmark = "=0.13.4"
yaml-front-matter = "=0.1.0"
serde_yaml = "=0.9.34"
words-count = "=0.1.7"
shellexpand = "=3.1.2"
docx-rs = "=0.4.22"
serde = { version = "=1.0.229", features = ["derive"] }
serde_json = "=1.0.151"
clap = { version = "=4.6.7", features = ["derive"] }
thousands = "=0.2.0"
rand = "=0.10.3"
obsidian-rs = "=0.1.3"

[dev-dependencies]
regex = "*"
