[package]
name = "pheddit"
version = "0.1.0"
edition = "2021"
publish = false

[dependencies]
pulldown-cmark = { version = "0.9", default-features = false }
rayon = "1"
regex = "1"
rocket = "0.5"
serde_json = "1"
