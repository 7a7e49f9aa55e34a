[package]
name = "process_frontmatter"
version = "0.1.0"
edition = "2021"
publish = false

[dependencies]
mdbook = { version = "0.4", default-features = false }
pulldown-cmark = { version = "0.10", default-features = false }
pulldown-cmark-to-cmark = "13"
regex = "1"
semver = "1"
serde_json = "1"
