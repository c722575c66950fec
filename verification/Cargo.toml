[package]
name = "silicon"
version = "0.1.0"
edition = "2021"
publish = false

[dependencies]
anyhow = "1"
clap = { version = "4", features = ["derive"] }
notify-debouncer-mini = "0.4"
serde = { version = "1", features = ["derive"] }
serde_json = "1"
svd-parser = { version = "0.14", features = ["expand"] }
toml = "0.8"
tree-sitter = "0.24"
tree-sitter-c = "0.23"
