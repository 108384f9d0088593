[package]
name = "kanji_etymology"
version = "0.1.0"
edition = "2021"
publish = false

[dependencies]
quick-xml = "=0.37.5"
pulldown-cmark = { version = "=0.12.2", default-features = false, features = ["html"] }
serde = { version = "=1.0.229", features = ["derive"] }
serde_json = "=1.0.154"
serde_yaml = "=0.9.34"
anyhow = "=1.0.104"
worker = "*"
gloo-net = "*"
js-sys = "*"
