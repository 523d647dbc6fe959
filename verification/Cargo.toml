[package]
name = "preprocess"
version = "0.1.0"
edition = "2021"
publish = false

[dependencies]
mdbook = { version = "0.4", default-features = false }
pulldown-cmark = { version = "0.8", default-features = false }
pulldown-cmark-to-cmark = "6"
