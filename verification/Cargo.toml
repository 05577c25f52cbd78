[package]
name = "sniffdiff"
version = "0.0.1"
edition = "2021"
publish = false

[dependencies]
tree-sitter = "0.25"
tree-sitter-python = "0.23.6"
anyhow = "1"
clap = { version = "4", features = ["derive"] }
serde = { version = "1", features = ["derive"] }
serde_json = { version = "1", features = ["preserve_order"] }
serde_yaml = "0.9"

[dev-dependencies]
tempfile = "3"
