[package]
name = "ifs_parser"
version = "0.1.0"
edition = "2021"
publish = false

[dependencies]
anyhow = "1"
chrono = "0.4"
clap = "4"
colored = "2"
env_logger = "0.10"
lazy_static = "1"
log = "0.4"
pathdiff = "0.2"
rusqlite = { version = "0.31", features = ["bundled"] }
serde = { version = "1", features = ["derive"] }
serde_json = "1"
thiserror = "1"
tree-sitter = "0.20"
